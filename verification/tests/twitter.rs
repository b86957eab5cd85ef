use nekonote::patterns::LinkPatterns;
use nekonote::twitter::{
    get_twitter_urls, images_for_button, is_twitter_embed, plan_twitter_buttons, EmbedInfo,
    TweetImages, MAGNET,
};

fn embed(url: Option<&str>, image: Option<&str>) -> EmbedInfo {
    EmbedInfo { url: url.map(|s| s.to_string()), image_url: image.map(|s| s.to_string()) }
}

const T1: &str = "https://twitter.com/neko/status/111";
const T2: &str = "https://twitter.com/inu/status/222?s=20";

fn sample() -> Vec<EmbedInfo> {
    vec![
        embed(Some(T1), Some("i1")),
        embed(Some("https://example.com"), Some("x")),
        embed(Some(T2), Some("j1")),
        embed(Some(T1), Some("i2")),
        embed(None, Some("y")),
        embed(Some(T1), Some("i3")),
    ]
}

#[test]
fn recognises_tweet_embeds() {
    let patterns = LinkPatterns::new().unwrap();
    assert!(is_twitter_embed(&patterns, &embed(Some(T1), None)));
    assert!(!is_twitter_embed(&patterns, &embed(Some("https://example.com"), None)));
    assert!(!is_twitter_embed(&patterns, &embed(None, Some("i"))));
}

#[test]
fn groups_images_by_tweet() {
    let patterns = LinkPatterns::new().unwrap();
    let groups = get_twitter_urls(&patterns, &sample()).unwrap();
    assert_eq!(groups.len(), 2);
    assert_eq!(groups[0].url, T1);
    assert_eq!(groups[0].images, vec!["i1", "i2", "i3"]);
    assert_eq!(groups[1].url, T2);
    assert_eq!(groups[1].images, vec!["j1"]);
}

#[test]
fn first_tweet_embed_without_image_is_skipped() {
    let patterns = LinkPatterns::new().unwrap();
    let groups = get_twitter_urls(&patterns, &vec![embed(Some(T1), None), embed(Some(T1), Some("a"))]).unwrap();
    assert_eq!(groups.len(), 1);
    assert_eq!(groups[0].images, vec!["a"]);
}

#[test]
fn later_tweet_embed_without_image_fails() {
    let patterns = LinkPatterns::new().unwrap();
    assert!(get_twitter_urls(&patterns, &vec![embed(Some(T1), Some("a")), embed(Some(T1), None)]).is_none());
}

#[test]
fn images_shown_by_button() {
    let patterns = LinkPatterns::new().unwrap();
    let text = format!("<{}>", T1);
    assert_eq!(images_for_button(&patterns, &sample(), &text), Some("i1\ni2\ni3".to_string()));
    assert_eq!(images_for_button(&patterns, &sample(), "<https://twitter.com/x/status/9>"), None);
}

#[test]
fn buttons_for_tweets_with_several_images() {
    let groups = vec![
        TweetImages { url: T1.to_string(), images: vec!["a".to_string(), "b".to_string()] },
        TweetImages { url: T2.to_string(), images: vec!["c".to_string()] },
    ];
    let buttons = plan_twitter_buttons(&vec![None, Some("👍".to_string())], &groups).unwrap();
    assert_eq!(buttons.len(), 1);
    assert_eq!(buttons[0].label, "Show images (2)");
    assert_eq!(buttons[0].content, format!("<{}>", T1));
    assert!(plan_twitter_buttons(&vec![Some(MAGNET.to_string())], &groups).is_none());
    assert_eq!(MAGNET, "🧲");
}

#[test]
fn button_label_counts_the_images_it_shows() {
    let patterns = LinkPatterns::new().unwrap();
    let embeds = sample();
    let groups = get_twitter_urls(&patterns, &embeds).unwrap();
    let buttons = plan_twitter_buttons(&vec![], &groups).unwrap();
    assert_eq!(buttons.len(), 1);
    assert_eq!(buttons[0].label, "Show images (3)");
    let shown = images_for_button(&patterns, &embeds, &buttons[0].content).unwrap();
    assert_eq!(shown.lines().count(), 3);
    assert_eq!(shown, "i1\ni2\ni3");
}
