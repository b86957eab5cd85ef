//! The requests and replies of the bot's application commands.
use vstd::prelude::*;

use crate::patterns::{regex_find_all, regex_replace_first, LinkPatterns, TWEET_LINK};
use crate::text::{decimal, spec_decimal};

verus! {

/// The name of the file a message's text is sent back in:
/// `<channel id>-<message id>.txt`.
pub fn content_file_name(channel_id: u64, message_id: u64) -> (r: String)
    ensures
        r@ == spec_decimal(channel_id as nat) + "-"@ + spec_decimal(message_id as nat) + ".txt"@,
{
    let c = decimal(channel_id);
    let m = decimal(message_id);
    let mut r = String::from_str(c.as_str());
    r.append("-");
    r.append(m.as_str());
    r.append(".txt");
    r
}

/// What to do with a tweet through the bot's API.
#[derive(PartialEq, Eq, Structural, Debug, Clone, Copy)]
pub enum TweetAction {
    Like,
    Retweet,
}

/// The `type` parameter of the API call for an action.
pub open spec fn action_name(action: TweetAction) -> Seq<char> {
    match action {
        TweetAction::Like => "like"@,
        TweetAction::Retweet => "retweet"@,
    }
}

/// A call of the bot's API for one tweet link of a message.
pub struct TweetRequest {
    /// The tweet link as it stands in the message.
    pub tweet_link: String,
    /// The API URL to call.
    pub api_url: String,
}

/// The replacement that keeps only the id of a tweet link.
pub const TWEET_ID_REPLACEMENT: &'static str = "$tweetId";

/// The API URL that performs `action` on the tweet `tweet_id` for the user
/// `user_id`, authorised by `token`.
pub open spec fn spec_action_url(
    token: Seq<char>,
    user_id: u64,
    tweet_id: Seq<char>,
    action: TweetAction,
) -> Seq<char> {
    "https://bardbot.net/api/twitter/execute?token="@ + token + "&user_id="@ + spec_decimal(
        user_id as nat,
    ) + "&tweet_id="@ + tweet_id + "&type="@ + action_name(action)
}

/// The API URL that performs `action` on the tweet `tweet_id` for the user
/// `user_id`, authorised by `token`.
pub fn action_url(token: &str, user_id: u64, tweet_id: &str, action: TweetAction) -> (r: String)
    ensures
        r@ == spec_action_url(token@, user_id, tweet_id@, action),
{
    let user = decimal(user_id);
    let kind = match action {
        TweetAction::Like => "like",
        TweetAction::Retweet => "retweet",
    };
    let mut url = String::from_str("https://bardbot.net/api/twitter/execute?token=");
    url.append(token);
    url.append("&user_id=");
    url.append(user.as_str());
    url.append("&tweet_id=");
    url.append(tweet_id);
    url.append("&type=");
    url.append(kind);
    url
}

/// The id a tweet link carries: the link with its match replaced by the
/// tweet id group.
pub open spec fn tweet_id_of(link: Seq<char>) -> Seq<char> {
    regex_replace_first(TWEET_LINK@, link, TWEET_ID_REPLACEMENT@)
}

/// One API call per tweet link in `content`, in order.
pub fn tweet_requests(
    patterns: &LinkPatterns,
    content: &str,
    token: &str,
    user_id: u64,
    action: TweetAction,
) -> (r: Vec<TweetRequest>)
    ensures
        r@.len() == regex_find_all(TWEET_LINK@, content@).len(),
        forall|i: int|
            0 <= i < r@.len() ==> {
                let link = regex_find_all(TWEET_LINK@, content@)[i];
                &&& (#[trigger] r@[i]).tweet_link@ == link
                &&& r@[i].api_url@ == spec_action_url(token@, user_id, tweet_id_of(link), action)
            },
{
    let links = patterns.tweet().find_all(content);
    let ghost found = links.deep_view();
    let mut r: Vec<TweetRequest> = Vec::new();
    for i in 0..links.len()
        invariant
            found == links.deep_view(),
            found == regex_find_all(TWEET_LINK@, content@),
            r@.len() == i,
            forall|k: int|
                0 <= k < i ==> {
                    &&& (#[trigger] r@[k]).tweet_link@ == found[k]
                    &&& r@[k].api_url@ == spec_action_url(
                        token@,
                        user_id,
                        tweet_id_of(found[k]),
                        action,
                    )
                },
    {
        let link = &links[i];
        let tweet_id = patterns.tweet().replace_first(link.as_str(), TWEET_ID_REPLACEMENT);
        let url = action_url(token, user_id, tweet_id.as_str(), action);
        r.push(TweetRequest { tweet_link: link.clone(), api_url: url });
    }
    r
}

/// The reply to a tweet action on `tweet_link`, after success or failure.
pub open spec fn spec_action_reply(action: TweetAction, tweet_link: Seq<char>, succeeded: bool) -> Seq<
    char,
> {
    match (action, succeeded) {
        (TweetAction::Like, true) => tweet_link + " をいいねしました。"@,
        (TweetAction::Like, false) => tweet_link
            + " をいいねできませんでした。認証してください。-> https://bardbot.net/api/twitter/oauth2"@,
        (TweetAction::Retweet, true) => tweet_link + " をリツイートしました。"@,
        (TweetAction::Retweet, false) => tweet_link
            + " をリツイートできませんでした。認証してください。-> https://bardbot.net/api/twitter/oauth2"@,
    }
}

/// The reply the bot sends after a tweet action.
pub fn tweet_action_reply(action: TweetAction, tweet_link: &str, succeeded: bool) -> (r: String)
    ensures
        r@ == spec_action_reply(action, tweet_link@, succeeded),
{
    let mut r = String::from_str(tweet_link);
    match (action, succeeded) {
        (TweetAction::Like, true) => r.append(" をいいねしました。"),
        (TweetAction::Like, false) => r.append(
            " をいいねできませんでした。認証してください。-> https://bardbot.net/api/twitter/oauth2",
        ),
        (TweetAction::Retweet, true) => r.append(" をリツイートしました。"),
        (TweetAction::Retweet, false) => r.append(
            " をリツイートできませんでした。認証してください。-> https://bardbot.net/api/twitter/oauth2",
        ),
    }
    r
}

/// The API URL that links the Twitter account of document `doc_id` to the
/// user `user_id`, authorised by `token`.
pub fn oauth_connect_url(token: &str, user_id: u64, doc_id: &str) -> (r: String)
    ensures
        r@ == "https://bardbot.net/api/twitter/connect?token="@ + token@ + "&user_id="@
            + spec_decimal(user_id as nat) + "&doc_id="@ + doc_id@,
{
    let mut r = String::from_str("https://bardbot.net/api/twitter/connect?token=");
    r.append(token);
    r.append("&user_id=");
    let user = decimal(user_id);
    r.append(user.as_str());
    r.append("&doc_id=");
    r.append(doc_id);
    r
}

/// The reply to an account-linking command.
pub fn oauth_reply(succeeded: bool) -> (r: String)
    ensures
        r@ == (if succeeded {
            "紐つけられました！"@
        } else {
            "紐つけに失敗しました。再度お試しください。"@
        }),
{
    if succeeded {
        String::from_str("紐つけられました！")
    } else {
        String::from_str("紐つけに失敗しました。再度お試しください。")
    }
}


/// The verb that names an action in the replies.
pub open spec fn action_verb(action: TweetAction) -> Seq<char> {
    match action {
        TweetAction::Like => "いいね"@,
        TweetAction::Retweet => "リツイート"@,
    }
}

/// The reply to a tweet action names the link and the action performed: on
/// success `<link> を<verb>しました。`, on failure `<link> を<verb>できません
/// でした。` followed by the request to authenticate; and replies to a like
/// and to a retweet of the same link never coincide.
pub proof fn law_action_reply_names_action(
    action: TweetAction,
    other: TweetAction,
    tweet_link: Seq<char>,
    succeeded: bool,
    other_succeeded: bool,
)
    ensures
        spec_action_reply(action, tweet_link, true) == tweet_link + " を"@ + action_verb(action)
            + "しました。"@,
        spec_action_reply(action, tweet_link, false) == tweet_link + " を"@ + action_verb(action)
            + "できませんでした。認証してください。-> https://bardbot.net/api/twitter/oauth2"@,
        action != other ==> spec_action_reply(action, tweet_link, succeeded) != spec_action_reply(
            other,
            tweet_link,
            other_succeeded,
        ),
{
    reveal_strlit(" を");
    reveal_strlit("いいね");
    reveal_strlit("リツイート");
    reveal_strlit("しました。");
    reveal_strlit("できませんでした。認証してください。-> https://bardbot.net/api/twitter/oauth2");
    reveal_strlit(" をいいねしました。");
    reveal_strlit(" をリツイートしました。");
    reveal_strlit(
        " をいいねできませんでした。認証してください。-> https://bardbot.net/api/twitter/oauth2",
    );
    reveal_strlit(
        " をリツイートできませんでした。認証してください。-> https://bardbot.net/api/twitter/oauth2",
    );
    let l = tweet_link;
    assert(spec_action_reply(action, l, true) =~= l + " を"@ + action_verb(action) + "しました。"@);
    assert(spec_action_reply(action, l, false) =~= l + " を"@ + action_verb(action)
        + "できませんでした。認証してください。-> https://bardbot.net/api/twitter/oauth2"@);
    if action != other {
        let x = spec_action_reply(action, l, succeeded);
        let y = spec_action_reply(other, l, other_succeeded);
        let n = l.len() as int;
        assert(x[n + 2] != y[n + 2]);
    }
}

} // verus!
