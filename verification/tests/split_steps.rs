use nekonote::amazon::product_urls;
use nekonote::commands::{action_url, TweetAction};
use nekonote::event::decide_message;
use nekonote::message_url::{links_from_captures, MessageLink};
use nekonote::percent_encoding::replace_decoded;
use nekonote::twitter::{group_tweet_images, images_for_tweet, EmbedInfo, TweetImages};

fn s(x: &str) -> String {
    x.to_string()
}

#[test]
fn product_urls_of_asins() {
    assert_eq!(
        product_urls(&vec![Some(s("B016K1K0AW")), Some(s("X"))]).unwrap(),
        vec![s("https://www.amazon.co.jp/gp/product/B016K1K0AW"), s("https://www.amazon.co.jp/gp/product/X")]
    );
    assert!(product_urls(&vec![Some(s("A")), None]).is_none());
}

#[test]
fn links_from_captured_groups() {
    let caps = vec![
        vec![Some(s("42")), Some(s("7")), Some(s("8"))],
        vec![Some(s("@me")), Some(s("1")), Some(s("2"))],
        vec![Some(s("42")), Some(s("+9")), Some(s("10"))],
    ];
    assert_eq!(
        links_from_captures(&caps, 42).unwrap(),
        vec![MessageLink { channel_id: 7, message_id: 8 }, MessageLink { channel_id: 9, message_id: 10 }]
    );
    assert!(links_from_captures(&vec![vec![None, Some(s("1")), Some(s("2"))]], 42).is_none());
    assert!(links_from_captures(&vec![vec![Some(s("42")), None, Some(s("2"))]], 42).is_none());
    assert!(links_from_captures(&vec![vec![Some(s("42")), Some(s("x")), Some(s("2"))]], 42).is_none());
    assert_eq!(links_from_captures(&vec![vec![Some(s("43")), None, None]], 42).unwrap(), vec![]);
}

#[test]
fn grouping_flagged_embeds() {
    let embeds = vec![
        EmbedInfo { url: Some(s("a")), image_url: Some(s("1")) },
        EmbedInfo { url: Some(s("b")), image_url: Some(s("2")) },
        EmbedInfo { url: Some(s("a")), image_url: Some(s("3")) },
        EmbedInfo { url: None, image_url: Some(s("4")) },
    ];
    let groups = group_tweet_images(&embeds, &vec![true, false, true, false]).unwrap();
    assert_eq!(groups.len(), 1);
    assert_eq!(groups[0].url, "a");
    assert_eq!(groups[0].images, vec![s("1"), s("3")]);
}

#[test]
fn images_of_named_tweet() {
    let groups = vec![
        TweetImages { url: s("t1"), images: vec![s("x"), s("y")] },
        TweetImages { url: s("t2"), images: vec![s("z")] },
    ];
    assert_eq!(images_for_tweet(&groups, "<t1>"), Some(s("x\ny")));
    assert_eq!(images_for_tweet(&groups, "t2"), Some(s("z")));
    assert_eq!(images_for_tweet(&groups, "<t3>"), None);
}

#[test]
fn api_url() {
    assert_eq!(
        action_url("k", 3, "55", TweetAction::Retweet),
        "https://bardbot.net/api/twitter/execute?token=k&user_id=3&tweet_id=55&type=retweet"
    );
}

#[test]
fn replacing_decoded_pairs() {
    let pairs = vec![(s("%E7%8C%AB"), s("%E7%8C%AB")), (s("+"), s("%20"))];
    assert_eq!(replace_decoded("%E7%8C%AB+の手", &pairs).ok().unwrap(), Some(s("猫 の手")));
    assert_eq!(replace_decoded("abc", &vec![]).ok().unwrap(), None);
    assert_eq!(replace_decoded("abc", &vec![(s("a"), s("%C3%28"))]).err().unwrap().decoded, "%C3%28");
    assert_eq!(replace_decoded("a%b", &vec![(s("a"), s("100%"))]).ok().unwrap(), Some(s("100%%b")));
}

#[test]
fn deciding_on_messages() {
    let a = decide_message(true, false, true, 3);
    assert!(!a.rewrite_amazon && !a.twitter_buttons);
    let b = decide_message(false, false, true, 0);
    assert!(b.rewrite_amazon && !b.twitter_buttons);
}
