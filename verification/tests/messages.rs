use nekonote::commands::{
    content_file_name, oauth_connect_url, oauth_reply, tweet_action_reply, tweet_requests,
    TweetAction,
};
use nekonote::event::{plan_message, plan_message_update};
use nekonote::message_url::{
    avatar_icon_url, message_links, messages_to_preview, preview_description, MessageLink,
};
use nekonote::patterns::LinkPatterns;
use nekonote::webhook::{choose_any_webhook, choose_webhook, webhook_username, WebhookChoice};

#[test]
fn links_to_messages_of_this_server() {
    let patterns = LinkPatterns::new().unwrap();
    let content = "https://discord.com/channels/123456789012345678/223456789012345678/323456789012345678 \
        https://ptb.discord.com/channels/999999999999999999/1/2 \
        https://discordapp.com/channels/999999999999999999/423456789012345678/523456789012345678/ \
        https://discord.com/channels/@me/623456789012345678/723456789012345678";
    assert_eq!(
        message_links(&patterns, content, 123456789012345678).unwrap(),
        vec![MessageLink { channel_id: 223456789012345678, message_id: 323456789012345678 }]
    );
    assert_eq!(
        message_links(&patterns, content, 999999999999999999).unwrap(),
        vec![MessageLink { channel_id: 423456789012345678, message_id: 523456789012345678 }]
    );
}

#[test]
fn overflowing_message_id() {
    let patterns = LinkPatterns::new().unwrap();
    let content = "https://discord.com/channels/123456789012345678/223456789012345678/99999999999999999999";
    assert!(message_links(&patterns, content, 123456789012345678).is_none());
}

#[test]
fn preview_descriptions() {
    assert_eq!(preview_description("short"), "short");
    let long = "a".repeat(150);
    assert_eq!(preview_description(&long), format!("{}...", "a".repeat(100)));
    let cats = "猫".repeat(40);
    assert_eq!(preview_description(&cats), format!("{}...", cats));
    let exact = "b".repeat(100);
    assert_eq!(preview_description(&exact), exact);
}

#[test]
fn avatar_url() {
    assert_eq!(avatar_icon_url(42, "abc"), "https://cdn.discordapp.com/avatars/42/abc.png?size=1024");
}

#[test]
fn each_message_previewed_once() {
    assert_eq!(messages_to_preview(&vec![5, 7, 5, 9, 7]), vec![0, 1, 3]);
    assert_eq!(messages_to_preview(&vec![]), Vec::<usize>::new());
}

#[test]
fn file_name_of_message() {
    assert_eq!(content_file_name(12, 345), "12-345.txt");
}

#[test]
fn requests_for_tweet_links() {
    let patterns = LinkPatterns::new().unwrap();
    let content = "a https://twitter.com/neko/status/111 b http://twitter.com/inu/status/222";
    let r = tweet_requests(&patterns, content, "tok", 77, TweetAction::Like);
    assert_eq!(r.len(), 2);
    assert_eq!(r[0].tweet_link, "https://twitter.com/neko/status/111");
    assert_eq!(r[0].api_url, "https://bardbot.net/api/twitter/execute?token=tok&user_id=77&tweet_id=111&type=like");
    assert_eq!(r[1].api_url, "https://bardbot.net/api/twitter/execute?token=tok&user_id=77&tweet_id=222&type=like");
    let rt = tweet_requests(&patterns, content, "tok", 77, TweetAction::Retweet);
    assert!(rt[1].api_url.ends_with("&type=retweet"));
}

#[test]
fn replies_to_tweet_actions() {
    assert_eq!(tweet_action_reply(TweetAction::Like, "L", true), "L をいいねしました。");
    assert_eq!(
        tweet_action_reply(TweetAction::Retweet, "L", false),
        "L をリツイートできませんでした。認証してください。-> https://bardbot.net/api/twitter/oauth2"
    );
}

#[test]
fn account_linking() {
    assert_eq!(
        oauth_connect_url("t", 5, "d"),
        "https://bardbot.net/api/twitter/connect?token=t&user_id=5&doc_id=d"
    );
    assert_eq!(oauth_reply(true), "紐つけられました！");
    assert_eq!(oauth_reply(false), "紐つけに失敗しました。再度お試しください。");
}

#[test]
fn webhook_choices() {
    assert_eq!(choose_webhook(&vec![]), WebhookChoice::CreateNew);
    assert_eq!(choose_webhook(&vec![false, false]), WebhookChoice::CreateNew);
    assert_eq!(choose_webhook(&vec![false, true]), WebhookChoice::UseFirst);
    assert_eq!(choose_any_webhook(0), WebhookChoice::CreateNew);
    assert_eq!(choose_any_webhook(3), WebhookChoice::UseFirst);
    assert_eq!(webhook_username("neko", 1234), "neko#1234");
}

#[test]
fn message_decisions() {
    let patterns = LinkPatterns::new().unwrap();
    let link = "https://www.amazon.co.jp/gp/product/B097XPYRQ2/";
    let a = plan_message(&patterns, false, false, link, 0);
    assert!(a.rewrite_amazon && !a.twitter_buttons);
    let b = plan_message(&patterns, false, true, link, 2);
    assert!(!b.rewrite_amazon && !b.twitter_buttons);
    let c = plan_message(&patterns, false, false, "hi", 1);
    assert!(!c.rewrite_amazon && c.twitter_buttons);
    assert!(plan_message_update(Some(1)));
    assert!(!plan_message_update(Some(0)));
    assert!(!plan_message_update(None));
}
