use nekonote::amazon::{
    amazon_product_urls, canonical_amazon_links, get_data_by_html, parse_image, parse_price,
    AmazonData, HtmlElement,
};
use nekonote::patterns::LinkPatterns;

const PAGE: &str = r#"<html><head>
<meta name="title" content="猫の本 | Amazon">
<meta name="description" content="猫についての本。">
</head><body>
<span id="price">
￥880
</span>
<img id="landingImage" src="https://m.media-amazon.com/images/I/cat.jpg">
<span data-hook="rating-out-of-text">星5つ中の4.4</span>
</body></html>"#;

#[test]
fn reads_product_page() {
    let data = get_data_by_html(PAGE, "https://www.amazon.co.jp/gp/product/B016K1K0AW/").unwrap();
    assert_eq!(
        data,
        AmazonData {
            price: Some("￥880".to_string()),
            image_url: Some("https://m.media-amazon.com/images/I/cat.jpg".to_string()),
            rating: Some("星5つ中の4.4".to_string()),
            title: Some("猫の本 | Amazon".to_string()),
            description: Some("猫についての本。".to_string()),
            url: "https://www.amazon.co.jp/gp/product/B016K1K0AW/".to_string(),
        }
    );
}

#[test]
fn missing_parts_of_page() {
    let data = get_data_by_html("<html><body><p>none</p></body></html>", "u").unwrap();
    assert_eq!(
        data,
        AmazonData {
            price: None,
            image_url: None,
            rating: None,
            title: None,
            description: None,
            url: "u".to_string(),
        }
    );
}

#[test]
fn image_without_source_is_refused() {
    assert!(get_data_by_html(r#"<img id="landingImage">"#, "u").is_none());
}

#[test]
fn first_matching_element_is_read() {
    let page = r#"<img id="imgBlkFront" src="first.jpg"><img id="landingImage" src="second.jpg">
<span data-hook="rating-out-of-text"><b>4.0</b> of 5</span>"#;
    let data = get_data_by_html(page, "u").unwrap();
    assert_eq!(data.image_url, Some("first.jpg".to_string()));
    assert_eq!(data.rating, Some("4.0".to_string()));
}

#[test]
fn price_loses_line_breaks() {
    let e = HtmlElement { first_text: Some("\n￥1,200\n".to_string()), attribute: None };
    assert_eq!(parse_price(Some(e)), Some("￥1,200".to_string()));
    assert_eq!(parse_price(None), None);
    let i = HtmlElement { first_text: None, attribute: Some("x.jpg".to_string()) };
    assert_eq!(parse_image(Some(i)), Some("x.jpg".to_string()));
}

#[test]
fn embed_of_product() {
    let data = AmazonData {
        price: Some("￥880".to_string()),
        image_url: None,
        rating: None,
        title: Some("本".to_string()),
        description: None,
        url: "https://a".to_string(),
    };
    let e = data.make_embed();
    assert_eq!(e.footer, "Created by @猫の手");
    assert_eq!(e.url, "https://a");
    assert_eq!(e.title, "本");
    assert_eq!(e.description, "???");
    assert_eq!(e.fields.len(), 2);
    assert_eq!((e.fields[0].name.as_str(), e.fields[0].value.as_str(), e.fields[0].inline), ("評価", "???", true));
    assert_eq!((e.fields[1].name.as_str(), e.fields[1].value.as_str(), e.fields[1].inline), ("値段", "￥880", true));
    assert_eq!(e.thumbnail, "");
}

#[test]
fn product_links_of_message() {
    let patterns = LinkPatterns::new().unwrap();
    let content = "見て https://www.amazon.co.jp/dp/B016K1K0AW/ref=x\nと https://amazon.co.jp/gp/product/B097XPYRQ2";
    assert_eq!(
        amazon_product_urls(&patterns, content).unwrap(),
        vec![
            "https://www.amazon.co.jp/gp/product/B016K1K0AW".to_string(),
            "https://www.amazon.co.jp/gp/product/B097XPYRQ2".to_string(),
        ]
    );
    assert_eq!(amazon_product_urls(&patterns, "nothing").unwrap(), Vec::<String>::new());
}

#[test]
fn canonical_links() {
    let patterns = LinkPatterns::new().unwrap();
    assert_eq!(
        canonical_amazon_links(&patterns, "見て https://www.amazon.co.jp/-/en/x/dp/B016K1K0AW/ref=sr_1_1?q=1 です"),
        "見て https://www.amazon.co.jp/gp/product/B016K1K0AW です"
    );
    assert_eq!(canonical_amazon_links(&patterns, "no links"), "no links");
}
