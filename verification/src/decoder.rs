//! Decoders that turn the percent-encoded form of a text back into text.
use vstd::prelude::*;
use vstd::utf8::{encode_scalar, encode_utf8};

use crate::text::{
    lemma_encode_utf8_concat, lemma_remove_char_absent, lemma_remove_char_concat,
    lemma_remove_char_step, replace,
    spec_replace,
};

verus! {

/// The value of an ASCII hexadecimal digit, upper or lower case.
pub open spec fn hex_digit_value(b: u8) -> Option<u8> {
    if 48 <= b <= 57 {
        Some((b - 48) as u8)
    } else if 65 <= b <= 70 {
        Some((b - 55) as u8)
    } else if 97 <= b <= 102 {
        Some((b - 87) as u8)
    } else {
        None
    }
}

/// Whether `b` is an even number of hexadecimal digits.
pub open spec fn is_hex_text(b: Seq<u8>) -> bool {
    &&& b.len() % 2 == 0
    &&& forall|i: int| 0 <= i < b.len() ==> (#[trigger] hex_digit_value(b[i])) is Some
}

/// The bytes that pairs of hexadecimal digits denote, high nibble first.
pub open spec fn spec_hex_decode(b: Seq<u8>) -> Seq<u8> {
    Seq::new(
        b.len() / 2,
        |i: int| (hex_digit_value(b[2 * i])->0 * 16 + hex_digit_value(b[2 * i + 1])->0) as u8,
    )
}

/// Calls `hex::decode`. Claims, as its source shows, that it succeeds
/// exactly on an even number of hexadecimal digits and then gives the bytes
/// they denote.
#[verifier::external_body]
fn hex_decode(data: &[u8]) -> (r: Option<Vec<u8>>)
    ensures
        r is Some <==> is_hex_text(data@),
        r matches Some(v) ==> v@ == spec_hex_decode(data@),
{
    hex::decode(data).ok()
}

/// The text that `encoding_rs::EUC_JP.decode` makes of `bytes`.
pub uninterp spec fn euc_jp_decoded(bytes: Seq<u8>) -> Seq<char>;

/// Calls `encoding_rs::EUC_JP.decode` and keeps the text; claims it is
/// `euc_jp_decoded` of the bytes.
#[verifier::external_body]
fn decode_euc_jp(bytes: &[u8]) -> (r: String)
    ensures
        r@ == euc_jp_decoded(bytes@),
{
    encoding_rs::EUC_JP.decode(bytes).0.into_owned()
}

/// A way of turning an encoded text back into text.
pub trait Decoder {
    /// The encoded texts that the decoder accepts.
    spec fn accepts(content: Seq<char>) -> bool;

    /// The text that an accepted `content` decodes to.
    spec fn decoded(content: Seq<char>) -> Seq<char>;

    fn decode(content: &str) -> (r: String)
        requires
            Self::accepts(content@),
        ensures
            r@ == Self::decoded(content@),
    ;
}

/// Takes the text as it is.
pub struct Utf8Decoder;

impl Decoder for Utf8Decoder {
    open spec fn accepts(content: Seq<char>) -> bool {
        true
    }

    open spec fn decoded(content: Seq<char>) -> Seq<char> {
        content
    }

    fn decode(content: &str) -> (r: String) {
        String::from_str(content)
    }
}

/// `content` without its `%` signs.
pub open spec fn without_percent_signs(content: Seq<char>) -> Seq<char> {
    spec_replace(content, seq!['%'], Seq::empty())
}

/// Reads `%XX` sequences as the hexadecimal bytes of an EUC-JP text.
pub struct EucJpDecoder;

impl Decoder for EucJpDecoder {
    /// The text, once its `%` signs are dropped, is an even number of
    /// hexadecimal digits.
    open spec fn accepts(content: Seq<char>) -> bool {
        is_hex_text(encode_utf8(without_percent_signs(content)))
    }

    open spec fn decoded(content: Seq<char>) -> Seq<char> {
        euc_jp_decoded(spec_hex_decode(encode_utf8(without_percent_signs(content))))
    }

    fn decode(content: &str) -> (r: String) {
        let percent = "%";
        let nothing = "";
        proof {
            reveal_strlit("%");
            reveal_strlit("");
        }
        assert(percent@ == seq!['%']);
        assert(nothing@ == Seq::<char>::empty());
        let stripped = replace(content, percent, nothing);
        let hex_text = stripped.as_str();
        match hex_decode(hex_text.as_bytes()) {
            Some(bytes) => decode_euc_jp(bytes.as_slice()),
            None => {
                assert(false);
                String::new()
            },
        }
    }
}

/// Dropping the percent signs leaves no percent sign.
pub proof fn law_no_percent_sign_left(content: Seq<char>)
    ensures
        !without_percent_signs(content).contains('%'),
    decreases content.len(),
{
    let pct = seq!['%'];
    if content.len() >= 1 {
        law_no_percent_sign_left(content.skip(1));
        let rest = without_percent_signs(content.skip(1));
        if content.take(1) == pct {
            assert(without_percent_signs(content) == Seq::<char>::empty() + rest);
            assert(Seq::<char>::empty() + rest =~= rest);
        } else {
            assert(content[0] != '%') by {
                if content[0] == '%' {
                    assert(content.take(1) =~= pct);
                }
            }
            let r = seq![content[0]] + rest;
            assert(without_percent_signs(content) == r);
            assert(!r.contains('%')) by {
                if r.contains('%') {
                    let j = choose|j: int| 0 <= j < r.len() && r[j] == '%';
                    if j > 0 {
                        assert(rest[j - 1] == '%');
                    }
                }
            }
        }
    }
}


/// A `%` sign anywhere in the text changes nothing the EUC-JP decoder
/// accepts or gives: the text with the sign and without it decode alike,
/// and so do the text and its form with all signs already dropped.
pub proof fn law_euc_jp_ignores_percent_signs(before: Seq<char>, after: Seq<char>)
    ensures
        EucJpDecoder::accepts(before + seq!['%'] + after) == EucJpDecoder::accepts(before + after),
        EucJpDecoder::decoded(before + seq!['%'] + after) == EucJpDecoder::decoded(before + after),
        EucJpDecoder::accepts(without_percent_signs(before)) == EucJpDecoder::accepts(before),
        EucJpDecoder::decoded(without_percent_signs(before)) == EucJpDecoder::decoded(before),
{
    let pct = seq!['%'];
    let e = Seq::<char>::empty();
    lemma_remove_char_concat(before + pct, after, '%');
    lemma_remove_char_concat(before, pct, '%');
    lemma_remove_char_concat(before, after, '%');
    lemma_remove_char_step(pct, '%');
    assert(pct.skip(1) =~= e);
    assert(spec_replace(e, pct, e) =~= e);
    assert(without_percent_signs(pct) =~= e);
    assert(without_percent_signs(before) + e =~= without_percent_signs(before));
    law_no_percent_sign_left(before);
    lemma_remove_char_absent(without_percent_signs(before), '%');
}

/// Whether `b` is `a` or, where `a` is a hexadecimal letter, that letter in
/// the other case.
pub open spec fn hex_case_variant(a: char, b: char) -> bool {
    ||| a == b
    ||| 97 <= (a as u32) <= 102 && (b as u32) == (a as u32) - 32
    ||| 65 <= (a as u32) <= 70 && (b as u32) == (a as u32) + 32
}

/// Whether `b` is `a` with some of its hexadecimal letters in the other case.
pub open spec fn same_but_hex_case(a: Seq<char>, b: Seq<char>) -> bool {
    &&& a.len() == b.len()
    &&& forall|i: int| 0 <= i < a.len() ==> #[trigger] hex_case_variant(a[i], b[i])
}

/// Whether two byte strings are alike but for bytes that are hexadecimal
/// digits of the same value.
spec fn same_hex_bytes(p: Seq<u8>, q: Seq<u8>) -> bool {
    &&& p.len() == q.len()
    &&& forall|i: int|
        0 <= i < p.len() ==> p[i] == q[i] || (hex_digit_value(p[i]) is Some
            && #[trigger] hex_digit_value(p[i]) == #[trigger] hex_digit_value(q[i]))
}

proof fn lemma_without_percent_hex_case(a: Seq<char>, b: Seq<char>)
    requires
        same_but_hex_case(a, b),
    ensures
        same_but_hex_case(without_percent_signs(a), without_percent_signs(b)),
    decreases a.len(),
{
    if a.len() > 0 {
        assert(hex_case_variant(a[0], b[0]));
        let a1 = a.skip(1);
        let b1 = b.skip(1);
        assert forall|i: int| 0 <= i < a1.len() implies #[trigger] hex_case_variant(a1[i], b1[i]) by {
            assert(hex_case_variant(a[i + 1], b[i + 1]));
        }
        lemma_without_percent_hex_case(a1, b1);
        lemma_remove_char_step(a, '%');
        lemma_remove_char_step(b, '%');
        assert(a[0] == '%' <==> b[0] == '%');
        let ra = without_percent_signs(a1);
        let rb = without_percent_signs(b1);
        if a[0] != '%' {
            let x = seq![a[0]] + ra;
            let y = seq![b[0]] + rb;
            assert forall|i: int| 0 <= i < x.len() implies #[trigger] hex_case_variant(x[i], y[i]) by {
                if i > 0 {
                    assert(x[i] == ra[i - 1] && y[i] == rb[i - 1]);
                    assert(hex_case_variant(ra[i - 1], rb[i - 1]));
                }
            }
        }
    }
}

proof fn lemma_ascii_encoding(c: char)
    requires
        (c as u32) < 128,
    ensures
        encode_scalar(c as u32) == seq![(c as u32) as u8],
{
    let v = c as u32;
    assert((v & 0x7F) as u8 == v as u8) by (bit_vector)
        requires
            v < 128,
    ;
}

proof fn lemma_encode_hex_case(a: Seq<char>, b: Seq<char>)
    requires
        same_but_hex_case(a, b),
    ensures
        same_hex_bytes(encode_utf8(a), encode_utf8(b)),
    decreases a.len(),
{
    if a.len() > 0 {
        assert(hex_case_variant(a[0], b[0]));
        let a1 = a.drop_first();
        let b1 = b.drop_first();
        assert forall|i: int| 0 <= i < a1.len() implies #[trigger] hex_case_variant(a1[i], b1[i]) by {
            assert(hex_case_variant(a[i + 1], b[i + 1]));
        }
        lemma_encode_hex_case(a1, b1);
        let ea = encode_scalar(a[0] as u32);
        let eb = encode_scalar(b[0] as u32);
        let ra = encode_utf8(a1);
        let rb = encode_utf8(b1);
        if a[0] != b[0] {
            lemma_ascii_encoding(a[0]);
            lemma_ascii_encoding(b[0]);
            assert(hex_digit_value((a[0] as u32) as u8) == hex_digit_value((b[0] as u32) as u8));
        }
        assert(encode_utf8(a) == ea + ra);
        assert(encode_utf8(b) == eb + rb);
        assert(ea.len() == eb.len());
        assert forall|i: int| 0 <= i < (ea + ra).len() implies (ea + ra)[i] == (eb + rb)[i] || (
        hex_digit_value((ea + ra)[i]) is Some && #[trigger] hex_digit_value((ea + ra)[i])
            == #[trigger] hex_digit_value((eb + rb)[i])) by {
            if i >= ea.len() {
                assert((ea + ra)[i] == ra[i - ea.len()]);
                assert((eb + rb)[i] == rb[i - ea.len()]);
                assert(ra[i - ea.len()] == rb[i - ea.len()] || hex_digit_value(ra[i - ea.len()])
                    is Some && hex_digit_value(ra[i - ea.len()]) == hex_digit_value(
                    rb[i - ea.len()],
                ));
            }
        }
    }
}

proof fn lemma_hex_decode_same_bytes(p: Seq<u8>, q: Seq<u8>)
    requires
        same_hex_bytes(p, q),
    ensures
        is_hex_text(p) == is_hex_text(q),
        spec_hex_decode(p) == spec_hex_decode(q),
{
    assert forall|i: int| 0 <= i < p.len() implies #[trigger] hex_digit_value(p[i])
        == hex_digit_value(q[i]) by {
        assert(p[i] == q[i] || hex_digit_value(p[i]) == hex_digit_value(q[i]));
    }
    if is_hex_text(q) {
        assert forall|i: int| 0 <= i < p.len() implies (#[trigger] hex_digit_value(p[i])) is Some by {
            assert(hex_digit_value(q[i]) is Some);
        }
    }
    if is_hex_text(p) {
        assert forall|i: int| 0 <= i < q.len() implies (#[trigger] hex_digit_value(q[i])) is Some by {
            assert(hex_digit_value(p[i]) is Some);
        }
    }
    assert(spec_hex_decode(p) =~= spec_hex_decode(q)) by {
        assert forall|i: int| 0 <= i < p.len() / 2 implies spec_hex_decode(p)[i]
            == spec_hex_decode(q)[i] by {
            assert(hex_digit_value(p[2 * i]) == hex_digit_value(q[2 * i]));
            assert(hex_digit_value(p[2 * i + 1]) == hex_digit_value(q[2 * i + 1]));
        }
    }
}

/// The case of hexadecimal letters changes nothing the EUC-JP decoder
/// accepts or gives: `%C1%E0` and `%c1%e0` decode alike.
pub proof fn law_euc_jp_ignores_hex_case(a: Seq<char>, b: Seq<char>)
    requires
        same_but_hex_case(a, b),
    ensures
        EucJpDecoder::accepts(a) == EucJpDecoder::accepts(b),
        EucJpDecoder::decoded(a) == EucJpDecoder::decoded(b),
{
    lemma_without_percent_hex_case(a, b);
    lemma_encode_hex_case(without_percent_signs(a), without_percent_signs(b));
    lemma_hex_decode_same_bytes(
        encode_utf8(without_percent_signs(a)),
        encode_utf8(without_percent_signs(b)),
    );
}


/// The upper-case hexadecimal digit of a value below 16.
pub open spec fn hex_digit_char(n: u8) -> char {
    seq!['0', '1', '2', '3', '4', '5', '6', '7', '8', '9', 'A', 'B', 'C', 'D', 'E', 'F'][n as int]
}

/// The percent-encoded form of `bytes`: for each byte, `%` and its two
/// upper-case hexadecimal digits, high first.
pub open spec fn percent_form(bytes: Seq<u8>) -> Seq<char>
    decreases bytes.len(),
{
    if bytes.len() == 0 {
        Seq::empty()
    } else {
        let b = bytes.last();
        percent_form(bytes.drop_last()) + seq!['%', hex_digit_char(b / 16), hex_digit_char(b % 16)]
    }
}

/// The UTF-8 bytes of the hexadecimal digits of `bytes`, two per byte.
spec fn digit_bytes(bytes: Seq<u8>) -> Seq<u8>
    decreases bytes.len(),
{
    if bytes.len() == 0 {
        Seq::empty()
    } else {
        let b = bytes.last();
        digit_bytes(bytes.drop_last()) + seq![
            (hex_digit_char(b / 16) as u32) as u8,
            (hex_digit_char(b % 16) as u32) as u8,
        ]
    }
}

proof fn lemma_hex_digit_char(n: u8)
    requires
        0 <= n < 16,
    ensures
        (hex_digit_char(n) as u32) < 128,
        hex_digit_char(n) != '%',
        hex_digit_value((hex_digit_char(n) as u32) as u8) == Some(n),
{
}

proof fn lemma_percent_form_digits(bytes: Seq<u8>)
    ensures
        encode_utf8(without_percent_signs(percent_form(bytes))) == digit_bytes(bytes),
    decreases bytes.len(),
{
    let e = Seq::<char>::empty();
    let pct = seq!['%'];
    if bytes.len() == 0 {
        assert(spec_replace(e, pct, e) =~= e);
        assert(encode_utf8(e) =~= Seq::<u8>::empty());
    } else {
        let b = bytes.last();
        let hi = hex_digit_char(b / 16);
        let lo = hex_digit_char(b % 16);
        lemma_hex_digit_char(b / 16);
        lemma_hex_digit_char(b % 16);
        lemma_percent_form_digits(bytes.drop_last());
        let pre = percent_form(bytes.drop_last());
        let t = seq!['%', hi, lo];
        let d = seq![hi, lo];
        lemma_remove_char_concat(pre, t, '%');
        lemma_remove_char_step(t, '%');
        assert(t.skip(1) =~= d);
        assert(!d.contains('%')) by {
            if d.contains('%') {
                let k = choose|k: int| 0 <= k < d.len() && d[k] == '%';
                assert(d[k] == hi || d[k] == lo);
            }
        }
        lemma_remove_char_absent(d, '%');
        assert(without_percent_signs(t) == d);
        lemma_encode_utf8_concat(without_percent_signs(pre), d);
        lemma_ascii_encoding(hi);
        lemma_ascii_encoding(lo);
        assert(d.drop_first() =~= seq![lo]);
        assert(seq![lo].drop_first() =~= e);
        assert(encode_utf8(e) =~= Seq::<u8>::empty());
        assert(encode_utf8(seq![lo]) =~= seq![(lo as u32) as u8]);
        assert(encode_utf8(d) =~= seq![(hi as u32) as u8, (lo as u32) as u8]);
    }
}

proof fn lemma_digit_bytes_shape(bytes: Seq<u8>)
    ensures
        digit_bytes(bytes).len() == 2 * bytes.len(),
        forall|i: int|
            0 <= i < bytes.len() ==> hex_digit_value(#[trigger] digit_bytes(bytes)[2 * i]) == Some(
                bytes[i] / 16,
            ) && hex_digit_value(digit_bytes(bytes)[2 * i + 1]) == Some(bytes[i] % 16),
    decreases bytes.len(),
{
    if bytes.len() > 0 {
        let pre = bytes.drop_last();
        lemma_digit_bytes_shape(pre);
        let b = bytes.last();
        lemma_hex_digit_char(b / 16);
        lemma_hex_digit_char(b % 16);
        let d = digit_bytes(bytes);
        assert forall|i: int| 0 <= i < bytes.len() implies hex_digit_value(#[trigger] d[2 * i])
            == Some(bytes[i] / 16) && hex_digit_value(d[2 * i + 1]) == Some(
            bytes[i] % 16,
        ) by {
            if i < pre.len() {
                assert(d[2 * i] == digit_bytes(pre)[2 * i]);
                assert(d[2 * i + 1] == digit_bytes(pre)[2 * i + 1]);
                assert(pre[i] == bytes[i]);
            } else {
                assert(bytes[i] == b);
            }
        }
    }
}

/// The decoder reads every byte: the percent-encoded form of any bytes is
/// accepted and decodes to the EUC-JP text of all of those bytes.
pub proof fn law_euc_jp_decodes_every_byte(bytes: Seq<u8>)
    ensures
        EucJpDecoder::accepts(percent_form(bytes)),
        EucJpDecoder::decoded(percent_form(bytes)) == euc_jp_decoded(bytes),
{
    lemma_percent_form_digits(bytes);
    lemma_digit_bytes_shape(bytes);
    let d = digit_bytes(bytes);
    assert forall|k: int| 0 <= k < d.len() implies (#[trigger] hex_digit_value(d[k])) is Some by {
        let i = k / 2;
        if k % 2 == 0 {
            assert(k == 2 * i);
        } else {
            assert(k == 2 * i + 1);
        }
        assert(hex_digit_value(d[2 * i]) is Some);
    }
    assert(is_hex_text(d));
    assert(spec_hex_decode(d) =~= bytes) by {
        assert forall|i: int| 0 <= i < bytes.len() implies spec_hex_decode(d)[i] == bytes[i] by {
            assert(hex_digit_value(d[2 * i]) == Some(bytes[i] / 16));
            let b = bytes[i];
            assert((b / 16) * 16 + (b % 16) == b);
        }
    }
}

} // verus!
