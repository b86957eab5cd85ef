use nekonote::decoder::{Decoder, EucJpDecoder};
use nekonote::patterns::Pattern;
use nekonote::percent_encoding::{get_all_match, replace_all_match};

#[test]
fn all_matches_with_decoded_text() {
    let p = Pattern::new(r"(%[0-9A-F]{2})+").unwrap();
    let q = Pattern::new(r"[0-9]+").unwrap();
    let r = get_all_match(vec![&p, &q], "a%41%42b 12 %43".to_string(), |s: &str| s.to_lowercase());
    assert_eq!(
        r,
        vec![
            ("%41%42".to_string(), "%41%42".to_string()),
            ("%43".to_string(), "%43".to_string()),
            ("41".to_string(), "41".to_string()),
            ("42".to_string(), "42".to_string()),
            ("12".to_string(), "12".to_string()),
            ("43".to_string(), "43".to_string()),
        ]
    );
}

#[test]
fn replace_euc_jp_runs() {
    let p = Pattern::new(r"(%[0-9A-F]{2})+").unwrap();
    let r = replace_all_match(vec![&p], "検索: %C1%E0%BA%EE%CA%FD%CB%A1".to_string(), |s: &str| EucJpDecoder::decode(s));
    assert_eq!(r.ok().unwrap(), Some("検索: 操作方法".to_string()));
}

#[test]
fn replace_url_decodes_decoder_output() {
    let p = Pattern::new(r"\[[^\]]*\]").unwrap();
    let r = replace_all_match(vec![&p], "x [a] y".to_string(), |_s: &str| "%E7%8C%AB".to_string());
    assert_eq!(r.ok().unwrap(), Some("x 猫 y".to_string()));
}

#[test]
fn nothing_to_replace() {
    let p = Pattern::new(r"(%[0-9A-F]{2})+").unwrap();
    let r = replace_all_match(vec![&p], "plain text".to_string(), |s: &str| s.to_string());
    assert_eq!(r.ok().unwrap(), None);
}

#[test]
fn undecodable_decoder_output() {
    let p = Pattern::new(r"x").unwrap();
    let r = replace_all_match(vec![&p], "axb".to_string(), |_s: &str| "%FF".to_string());
    assert_eq!(r.err().unwrap().decoded, "%FF");
}
