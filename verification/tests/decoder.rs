use nekonote::decoder::{Decoder, EucJpDecoder, Utf8Decoder};

#[test]
fn test_euc_jp() {
    assert_eq!(EucJpDecoder::decode(&*"%C1%E0%BA%EE%CA%FD%CB%A1"), "操作方法")
}

#[test]
fn euc_jp_ignores_percent_signs_between_digits() {
    assert_eq!(EucJpDecoder::decode("C1E0BAEE"), "操作");
    assert_eq!(EucJpDecoder::decode("%c1%e0"), "操");
}

#[test]
fn euc_jp_ascii_bytes() {
    assert_eq!(EucJpDecoder::decode("%41%42"), "AB");
}

#[test]
fn utf8_decoder_keeps_text() {
    assert_eq!(Utf8Decoder::decode("%C1 そのまま"), "%C1 そのまま");
}

#[test]
fn euc_jp_decoding_ignores_hex_case() {
    let upper = EucJpDecoder::decode("%C1%E0%BA%EE");
    assert_eq!(EucJpDecoder::decode("%c1%e0%ba%ee"), upper);
    assert_eq!(EucJpDecoder::decode("%C1%e0%bA%Ee"), upper);
    assert_eq!(upper, "操作");
}

#[test]
fn euc_jp_decoding_ignores_extra_percent_signs() {
    assert_eq!(EucJpDecoder::decode("%%C1%E%0%"), "操");
    assert_eq!(EucJpDecoder::decode("%C1%E0"), EucJpDecoder::decode("C1E0"));
}
