//! Amazon Japan product pages: what the bot reads from them, the embed it
//! posts for them, and the canonical form of product links.
use vstd::prelude::*;

use crate::patterns::{regex_captures, regex_is_match, regex_replace_all, LinkPatterns, AMAZON_LINK};
use crate::text::{replace, spec_replace};

verus! {

/// What the bot reads from an element of a page: its first descendant text
/// node and the value of one requested attribute.
pub struct HtmlElement {
    pub first_text: Option<String>,
    pub attribute: Option<String>,
}

impl View for HtmlElement {
    type V = (Option<Seq<char>>, Option<Seq<char>>);

    open spec fn view(&self) -> (Option<Seq<char>>, Option<Seq<char>>) {
        (opt_view(self.first_text), opt_view(self.attribute))
    }
}

/// The view of an optional string.
pub open spec fn opt_view(s: Option<String>) -> Option<Seq<char>> {
    match s {
        Some(t) => Some(t@),
        None => None,
    }
}

/// The view of an optional element.
pub open spec fn opt_element_view(e: Option<HtmlElement>) -> Option<
    (Option<Seq<char>>, Option<Seq<char>>),
> {
    match e {
        Some(x) => Some(x@),
        None => None,
    }
}

/// For the HTML document `document`, the first element that `Html::select`
/// yields for the CSS selector `selector`, read as by `HtmlElement` with
/// `attribute` as the requested attribute; `None` where `selector` is not a
/// valid selector.
pub uninterp spec fn html_select_first(
    document: Seq<char>,
    selector: Seq<char>,
    attribute: Seq<char>,
) -> Option<Option<(Option<Seq<char>>, Option<Seq<char>>)>>;

/// Parses `selector` with `scraper::Selector::parse` and `document` with
/// `scraper::Html::parse_document`, takes the first element that
/// `Html::select` yields and reads its first text node and the attribute
/// `attribute`. Claims the result is `html_select_first` of the three
/// arguments.
#[verifier::external_body]
fn select_first(document: &str, selector: &str, attribute: &str) -> (r: Option<
    Option<HtmlElement>,
>)
    ensures
        r is Some <==> html_select_first(document@, selector@, attribute@) is Some,
        r matches Some(e) ==> opt_element_view(e) == html_select_first(
            document@,
            selector@,
            attribute@,
        )->0,
{
    let selector = scraper::Selector::parse(selector).ok()?;
    let document = scraper::Html::parse_document(document);
    let first = document.select(&selector).next();
    Some(first.map(|e| HtmlElement {
        first_text: e.text().next().map(|t| t.to_string()),
        attribute: e.attr(attribute).map(|a| a.to_string()),
    }))
}

/// The data the bot shows for an Amazon product.
#[derive(Debug, PartialEq)]
pub struct AmazonData {
    pub price: Option<String>,
    pub image_url: Option<String>,
    pub rating: Option<String>,
    pub title: Option<String>,
    pub description: Option<String>,
    pub url: String,
}

/// The view of `AmazonData`.
pub struct AmazonDataView {
    pub price: Option<Seq<char>>,
    pub image_url: Option<Seq<char>>,
    pub rating: Option<Seq<char>>,
    pub title: Option<Seq<char>>,
    pub description: Option<Seq<char>>,
    pub url: Seq<char>,
}

impl View for AmazonData {
    type V = AmazonDataView;

    open spec fn view(&self) -> AmazonDataView {
        AmazonDataView {
            price: opt_view(self.price),
            image_url: opt_view(self.image_url),
            rating: opt_view(self.rating),
            title: opt_view(self.title),
            description: opt_view(self.description),
            url: self.url@,
        }
    }
}

/// Elements whose text is read must have a text node.
pub open spec fn has_text(e: Option<HtmlElement>) -> bool {
    e matches Some(x) ==> x.first_text is Some
}

/// Elements whose attribute is read must have it.
pub open spec fn has_attribute(e: Option<HtmlElement>) -> bool {
    e matches Some(x) ==> x.attribute is Some
}

/// A price text with its line breaks removed.
pub open spec fn clean_price(text: Seq<char>) -> Seq<char> {
    spec_replace(text, seq!['\n'], Seq::empty())
}

/// The price shown in the element: its first text without line breaks.
pub fn parse_price(element: Option<HtmlElement>) -> (r: Option<String>)
    requires
        has_text(element),
    ensures
        opt_view(r) == (match element {
            Some(e) => Some(clean_price(opt_view(e.first_text)->0)),
            None => None,
        }),
{
    match element {
        Some(price) => {
            let newline = "\n";
            let nothing = "";
            proof {
                reveal_strlit("\n");
                reveal_strlit("");
            }
            assert(newline@ =~= seq!['\n']);
            assert(nothing@ =~= Seq::<char>::empty());
            match price.first_text {
                Some(t) => Some(replace(t.as_str(), newline, nothing)),
                None => None,
            }
        },
        None => None,
    }
}

/// The image URL in the element: the attribute it was read with.
pub fn parse_image(element: Option<HtmlElement>) -> (r: Option<String>)
    requires
        has_attribute(element),
    ensures
        opt_view(r) == (match element {
            Some(e) => opt_view(e.attribute),
            None => None,
        }),
{
    match element {
        Some(image) => image.attribute,
        None => None,
    }
}

/// The rating in the element: its first text.
pub fn parse_rating(element: Option<HtmlElement>) -> (r: Option<String>)
    requires
        has_text(element),
    ensures
        opt_view(r) == (match element {
            Some(e) => opt_view(e.first_text),
            None => None,
        }),
{
    match element {
        Some(rating) => rating.first_text,
        None => None,
    }
}

/// The title in the element: the attribute it was read with.
pub fn parse_title(element: Option<HtmlElement>) -> (r: Option<String>)
    requires
        has_attribute(element),
    ensures
        opt_view(r) == (match element {
            Some(e) => opt_view(e.attribute),
            None => None,
        }),
{
    match element {
        Some(title) => title.attribute,
        None => None,
    }
}

/// The description in the element: the attribute it was read with.
pub fn parse_description(element: Option<HtmlElement>) -> (r: Option<String>)
    requires
        has_attribute(element),
    ensures
        opt_view(r) == (match element {
            Some(e) => opt_view(e.attribute),
            None => None,
        }),
{
    match element {
        Some(description) => description.attribute,
        None => None,
    }
}

/// The data of a product, read from the elements found for each field.
pub fn amazon_data_from_elements(
    price: Option<HtmlElement>,
    image: Option<HtmlElement>,
    rating: Option<HtmlElement>,
    title: Option<HtmlElement>,
    description: Option<HtmlElement>,
    url: &str,
) -> (r: AmazonData)
    requires
        has_text(price),
        has_attribute(image),
        has_text(rating),
        has_attribute(title),
        has_attribute(description),
    ensures
        r@ == data_from_views(
            opt_element_view(price),
            opt_element_view(image),
            opt_element_view(rating),
            opt_element_view(title),
            opt_element_view(description),
            url@,
        ),
{
    AmazonData {
        price: parse_price(price),
        image_url: parse_image(image),
        rating: parse_rating(rating),
        title: parse_title(title),
        description: parse_description(description),
        url: String::from_str(url),
    }
}

/// An element read as by `HtmlElement`.
pub type ElementView = (Option<Seq<char>>, Option<Seq<char>>);

/// The first text of an element, if the element is there.
pub open spec fn text_of(e: Option<ElementView>) -> Option<Seq<char>> {
    match e {
        Some(v) => v.0,
        None => None,
    }
}

/// The read attribute of an element, if the element is there.
pub open spec fn attribute_of(e: Option<ElementView>) -> Option<Seq<char>> {
    match e {
        Some(v) => v.1,
        None => None,
    }
}

/// The product data that the found elements give.
pub open spec fn data_from_views(
    price: Option<ElementView>,
    image: Option<ElementView>,
    rating: Option<ElementView>,
    title: Option<ElementView>,
    description: Option<ElementView>,
    url: Seq<char>,
) -> AmazonDataView {
    AmazonDataView {
        price: match text_of(price) {
            Some(t) => Some(clean_price(t)),
            None => None,
        },
        image_url: attribute_of(image),
        rating: text_of(rating),
        title: attribute_of(title),
        description: attribute_of(description),
        url: url,
    }
}

/// Where the price is shown on a product page.
pub const PRICE_SELECTOR: &'static str = "#price,#newBuyBoxPrice,#priceblock_ourprice,#kindle-price,#price_inside_buybox,.slot-price>.a-color-price";

/// Where the product image is.
pub const IMAGE_SELECTOR: &'static str = "#landingImage,#imgBlkFront,#ebooksImgBlkFront";

/// Where the rating is shown.
pub const RATING_SELECTOR: &'static str = "span[data-hook=\"rating-out-of-text\"]";

/// The title of the page.
pub const TITLE_SELECTOR: &'static str = "meta[name=\"title\"]";

/// The description of the page.
pub const DESCRIPTION_SELECTOR: &'static str = "meta[name=\"description\"]";

/// The attribute that holds an image's URL.
pub const IMAGE_ATTRIBUTE: &'static str = "src";

/// The attribute that holds a meta element's value.
pub const META_ATTRIBUTE: &'static str = "content";

/// The attribute asked for where only the text of an element is read.
pub const NO_ATTRIBUTE: &'static str = "";

/// Whether an element, where present, has what is read from it.
pub open spec fn readable(e: Option<ElementView>, text: bool) -> bool {
    e matches Some(v) ==> (if text {
        v.0 is Some
    } else {
        v.1 is Some
    })
}

/// The product data of the page `html` found at `url`; `None` where a
/// selector does not parse or a found element lacks what is read from it.
pub open spec fn spec_data_by_html(html: Seq<char>, url: Seq<char>) -> Option<AmazonDataView> {
    let p = html_select_first(html, PRICE_SELECTOR@, NO_ATTRIBUTE@);
    let i = html_select_first(html, IMAGE_SELECTOR@, IMAGE_ATTRIBUTE@);
    let r = html_select_first(html, RATING_SELECTOR@, NO_ATTRIBUTE@);
    let t = html_select_first(html, TITLE_SELECTOR@, META_ATTRIBUTE@);
    let d = html_select_first(html, DESCRIPTION_SELECTOR@, META_ATTRIBUTE@);
    if p is Some && i is Some && r is Some && t is Some && d is Some && readable(p->0, true)
        && readable(i->0, false) && readable(r->0, true) && readable(t->0, false) && readable(
        d->0,
        false,
    ) {
        Some(data_from_views(p->0, i->0, r->0, t->0, d->0, url))
    } else {
        None
    }
}

/// Reads the product data from the HTML of a product page. `None` stands
/// for a page on which reading the data cannot succeed (a selector that does
/// not parse, or a found element without the text or attribute read from
/// it): there a direct read with `unwrap` would panic.
pub fn get_data_by_html(html: &str, url: &str) -> (r: Option<AmazonData>)
    ensures
        match r {
            Some(data) => spec_data_by_html(html@, url@) == Some(data@),
            None => spec_data_by_html(html@, url@) is None,
        },
{
    let price = select_first(html, PRICE_SELECTOR, NO_ATTRIBUTE);
    let image = select_first(html, IMAGE_SELECTOR, IMAGE_ATTRIBUTE);
    let rating = select_first(html, RATING_SELECTOR, NO_ATTRIBUTE);
    let title = select_first(html, TITLE_SELECTOR, META_ATTRIBUTE);
    let description = select_first(html, DESCRIPTION_SELECTOR, META_ATTRIBUTE);
    match (price, image, rating, title, description) {
        (Some(price), Some(image), Some(rating), Some(title), Some(description)) => {
            let readable = has_element_text(&price) && has_element_attribute(&image)
                && has_element_text(&rating) && has_element_attribute(&title)
                && has_element_attribute(&description);
            if readable {
                Some(amazon_data_from_elements(price, image, rating, title, description, url))
            } else {
                None
            }
        },
        _ => None,
    }
}

fn has_element_text(e: &Option<HtmlElement>) -> (r: bool)
    ensures
        r == has_text(*e),
        r == readable(opt_element_view(*e), true),
{
    match e {
        Some(x) => x.first_text.is_some(),
        None => true,
    }
}

fn has_element_attribute(e: &Option<HtmlElement>) -> (r: bool)
    ensures
        r == has_attribute(*e),
        r == readable(opt_element_view(*e), false),
{
    match e {
        Some(x) => x.attribute.is_some(),
        None => true,
    }
}

/// One name/value field of an embed.
pub struct EmbedField {
    pub name: String,
    pub value: String,
    pub inline: bool,
}

/// The embed the bot posts for a product.
pub struct AmazonEmbed {
    pub footer: String,
    pub url: String,
    pub title: String,
    pub description: String,
    pub fields: Vec<EmbedField>,
    pub thumbnail: String,
}

/// The text, or `default` where there is none.
pub open spec fn or_default(s: Option<Seq<char>>, default: Seq<char>) -> Seq<char> {
    match s {
        Some(t) => t,
        None => default,
    }
}

fn text_or(s: &Option<String>, default: &str) -> (r: String)
    ensures
        r@ == or_default(opt_view(*s), default@),
{
    match s {
        Some(t) => t.clone(),
        None => String::from_str(default),
    }
}

impl AmazonData {
    /// The embed for the product: its link, title and description, its
    /// rating and price as inline fields, its image as thumbnail, and `???`
    /// (an empty thumbnail) for what the page did not give.
    pub fn make_embed(&self) -> (r: AmazonEmbed)
        ensures
            r.footer@ == "Created by @猫の手"@,
            r.url@ == self.url@,
            r.title@ == or_default(self@.title, "???"@),
            r.description@ == or_default(self@.description, "???"@),
            r.fields@.len() == 2,
            r.fields@[0].name@ == "評価"@,
            r.fields@[0].value@ == or_default(self@.rating, "???"@),
            r.fields@[0].inline,
            r.fields@[1].name@ == "値段"@,
            r.fields@[1].value@ == or_default(self@.price, "???"@),
            r.fields@[1].inline,
            r.thumbnail@ == or_default(self@.image_url, ""@),
    {
        let mut fields: Vec<EmbedField> = Vec::new();
        fields.push(
            EmbedField {
                name: String::from_str("評価"),
                value: text_or(&self.rating, "???"),
                inline: true,
            },
        );
        fields.push(
            EmbedField {
                name: String::from_str("値段"),
                value: text_or(&self.price, "???"),
                inline: true,
            },
        );
        AmazonEmbed {
            footer: String::from_str("Created by @猫の手"),
            url: self.url.clone(),
            title: text_or(&self.title, "???"),
            description: text_or(&self.description, "???"),
            fields,
            thumbnail: text_or(&self.image_url, ""),
        }
    }
}

/// The start of the canonical link to a product; its ASIN follows.
pub const PRODUCT_LINK_PREFIX: &'static str = "https://www.amazon.co.jp/gp/product/";

/// What each product link in a message is rewritten to.
pub const CANONICAL_PRODUCT_LINK: &'static str = "https://www.amazon.co.jp/gp/product/$asin";

/// The name of the capture group that holds a product's ASIN.
pub const ASIN_GROUP: &'static str = "asin";

/// The ASIN group of each product link in `content`, in order.
pub open spec fn asins_in(content: Seq<char>) -> Seq<Option<Seq<char>>> {
    regex_captures(AMAZON_LINK@, content, seq![ASIN_GROUP@]).map_values(
        |row: Seq<Option<Seq<char>>>| row[0],
    )
}

/// The canonical product page URL for each ASIN; `None` where one is
/// missing.
pub open spec fn spec_product_urls(asins: Seq<Option<Seq<char>>>) -> Option<Seq<Seq<char>>> {
    if forall|i: int| 0 <= i < asins.len() ==> (#[trigger] asins[i]) is Some {
        Some(asins.map_values(|a: Option<Seq<char>>| PRODUCT_LINK_PREFIX@ + a->0))
    } else {
        None
    }
}

/// The views of an optional list of strings.
pub open spec fn opt_strings_view(v: Option<Vec<String>>) -> Option<Seq<Seq<char>>> {
    match v {
        Some(l) => Some(l.deep_view()),
        None => None,
    }
}

/// The canonical product page URL for each ASIN, in order; `None` where an
/// ASIN is missing.
pub fn product_urls(asins: &Vec<Option<String>>) -> (r: Option<Vec<String>>)
    ensures
        opt_strings_view(r) == spec_product_urls(asins.deep_view()),
{
    let ghost av = asins.deep_view();
    let mut urls: Vec<String> = Vec::new();
    for i in 0..asins.len()
        invariant
            av == asins.deep_view(),
            urls@.len() == i,
            forall|k: int| 0 <= k < i ==> (#[trigger] av[k]) is Some,
            forall|k: int| 0 <= k < i ==> (#[trigger] urls@[k])@ == PRODUCT_LINK_PREFIX@ + av[k]->0,
    {
        assert(av[i as int] == opt_view(asins@[i as int]));
        match &asins[i] {
            Some(asin) => {
                let mut url = String::from_str(PRODUCT_LINK_PREFIX);
                url.append(asin.as_str());
                urls.push(url);
            },
            None => {
                return None;
            },
        }
    }
    assert(urls.deep_view() =~= av.map_values(|a: Option<Seq<char>>| PRODUCT_LINK_PREFIX@ + a->0));
    Some(urls)
}

/// The canonical product page URL for each product link in `content`, in
/// order; `None` where a link's match has no ASIN group.
pub fn amazon_product_urls(patterns: &LinkPatterns, content: &str) -> (r: Option<Vec<String>>)
    ensures
        opt_strings_view(r) == spec_product_urls(asins_in(content@)),
{
    let mut groups: Vec<String> = Vec::new();
    groups.push(String::from_str(ASIN_GROUP));
    assert(groups.deep_view() =~= seq![ASIN_GROUP@]);
    let caps = patterns.amazon().captures(content, &groups);
    let ghost cv = caps.deep_view();
    let mut asins: Vec<Option<String>> = Vec::new();
    for i in 0..caps.len()
        invariant
            cv == caps.deep_view(),
            forall|k: int| 0 <= k < caps@.len() ==> #[trigger] caps@[k]@.len() == 1,
            asins@.len() == i,
            forall|k: int| 0 <= k < i ==> (#[trigger] asins.deep_view()[k]) == cv[k][0],
    {
        assert(caps@[i as int]@.len() == 1);
        assert(cv[i as int][0] == opt_view(caps@[i as int]@[0]));
        let asin = match &caps[i][0] {
            Some(a) => Some(a.clone()),
            None => None,
        };
        let ghost before = asins.deep_view();
        asins.push(asin);
        assert(asins.deep_view() =~= before.push(opt_view(asin)));
    }
    assert(asins.deep_view() =~= asins_in(content@));
    product_urls(&asins)
}

/// `content` with every product link rewritten to its canonical form.
pub fn canonical_amazon_links(patterns: &LinkPatterns, content: &str) -> (r: String)
    ensures
        r@ == regex_replace_all(AMAZON_LINK@, content@, CANONICAL_PRODUCT_LINK@),
        !regex_is_match(AMAZON_LINK@, content@) ==> r@ == content@,
{
    patterns.amazon().replace_all(content, CANONICAL_PRODUCT_LINK)
}

} // verus!
