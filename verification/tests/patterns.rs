use nekonote::patterns::{LinkPatterns, Pattern};
use nekonote::percent_encoding::get_all_match;

#[test]
fn test_amazon_regex_1() {
    let patterns = LinkPatterns::new().unwrap();
    assert!(patterns.is_amazon_link("https://www.amazon.co.jp/gp/product/B097XPYRQ2/"))
}

#[test]
fn test_amazon_regex_2() {
    let patterns = LinkPatterns::new().unwrap();
    assert!(patterns.is_amazon_link("https://www.amazon.co.jp/-/en/檜山-良昭-ebook/dp/B016K1K0AW/ref=sr_1_1?adgrpid=104219865276&dchild=1&gclid=Cj0KCQjw16KFBhCgARIsALB0g8IFXLOMIM86fOhk6X8tnvcnN4TzZ0EV4hoJbRG9RSF2QMcAJ8vM8u4aAhulEALw_wcB&hvadid=447991919909&hvdev=c&hvlocphy=20663&hvnetw=g&hvqmt=e&hvrand=11149647611329713892&hvtargid=kwd-739605420901&hydadcr=4073_10899431&jp-ad-ap=0&keywords=日本本土決戦+檜山良昭&qid=1621676966&sr=8-1"))
}

#[test]
fn amazon_pattern_rejects_other_sites() {
    let patterns = LinkPatterns::new().unwrap();
    assert!(!patterns.is_amazon_link("https://www.example.com/gp/product/B097XPYRQ2/"));
    assert!(!patterns.is_amazon_link("no link at all"));
}

#[test]
fn invalid_pattern_does_not_compile() {
    assert!(Pattern::new("(").is_none());
    assert!(Pattern::new("a+").is_some());
}

#[test]
fn link_patterns_find_links() {
    let patterns = LinkPatterns::new().unwrap();
    let content = "x https://twitter.com/neko/status/1 y https://discord.com/channels/123456789012345678/223456789012345678/323456789012345678".to_string();
    let found = get_all_match(
        vec![patterns.tweet(), patterns.message()],
        content,
        |s: &str| s.len().to_string(),
    );
    assert_eq!(
        found,
        vec![
            ("https://twitter.com/neko/status/1".to_string(), "33".to_string()),
            (
                "https://discord.com/channels/123456789012345678/223456789012345678/323456789012345678".to_string(),
                "85".to_string()
            ),
        ]
    );
}
