//! Finding encoded runs of text with regular expressions and writing them
//! back decoded.
use vstd::prelude::*;
use vstd::utf8::*;

use crate::decoder::hex_digit_value;
use crate::patterns::{regex_find_all, regex_is_match, Pattern};
use crate::text::{replace, spec_replace};

verus! {

/// Percent-decoding of bytes: each `%` followed by two hexadecimal digits
/// stands for the byte they denote; every other byte stands for itself.
pub open spec fn spec_percent_decode(b: Seq<u8>) -> Seq<u8>
    decreases b.len(),
{
    if b.len() == 0 {
        Seq::empty()
    } else if b[0] == 37 && b.len() >= 3 && hex_digit_value(b[1]) is Some && hex_digit_value(
        b[2],
    ) is Some {
        seq![(hex_digit_value(b[1])->0 * 16 + hex_digit_value(b[2])->0) as u8]
            + spec_percent_decode(b.skip(3))
    } else {
        seq![b[0]] + spec_percent_decode(b.skip(1))
    }
}

/// The text that the percent-encoded `s` stands for, read as UTF-8; `None`
/// where the decoded bytes are not UTF-8.
pub open spec fn spec_url_decode(s: Seq<char>) -> Option<Seq<char>> {
    let bytes = spec_percent_decode(encode_utf8(s));
    if valid_utf8(bytes) {
        Some(decode_utf8(bytes))
    } else {
        None
    }
}

/// Calls `urlencoding::decode`. Claims, as its source shows, that it
/// percent-decodes the UTF-8 bytes of `s` and fails exactly where the
/// result is not UTF-8.
#[verifier::external_body]
fn url_decode(s: &str) -> (r: Option<String>)
    ensures
        r is Some <==> spec_url_decode(s@) is Some,
        r matches Some(t) ==> t@ == spec_url_decode(s@)->0,
{
    match urlencoding::decode(s) {
        Ok(t) => Some(t.into_owned()),
        Err(_) => None,
    }
}

/// The texts of all matches of each pattern in `content`, pattern after
/// pattern, each pattern's matches in order.
pub open spec fn all_matches(patterns: Seq<Seq<char>>, content: Seq<char>) -> Seq<Seq<char>>
    decreases patterns.len(),
{
    if patterns.len() == 0 {
        Seq::empty()
    } else {
        all_matches(patterns.drop_last(), content) + regex_find_all(patterns.last(), content)
    }
}

/// The sources of a list of patterns.
pub open spec fn sources(patterns: Seq<&Pattern>) -> Seq<Seq<char>> {
    patterns.map_values(|p: &Pattern| p@)
}

/// `decoded` is a text that `decoder` may return for `matched`.
pub open spec fn decodes_to<F: Fn(&str) -> String>(
    decoder: F,
    matched: Seq<char>,
    decoded: Seq<char>,
) -> bool {
    exists|x: &str, out: String|
        x@ == matched && out@ == decoded && #[trigger] call_ensures(decoder, (x,), out)
}

/// `pairs` holds, in order, every match of the patterns in `content`
/// together with what `decoder` made of it.
pub open spec fn decoded_matches<F: Fn(&str) -> String>(
    decoder: F,
    patterns: Seq<Seq<char>>,
    content: Seq<char>,
    pairs: Seq<(Seq<char>, Seq<char>)>,
) -> bool {
    let found = all_matches(patterns, content);
    &&& pairs.len() == found.len()
    &&& forall|i: int|
        0 <= i < pairs.len() ==> (#[trigger] pairs[i]).0 == found[i] && decodes_to(
            decoder,
            found[i],
            pairs[i].1,
        )
}

/// Every match of each regex in `content`, paired with what `decoder`
/// makes of it.
pub fn get_all_match<F: Fn(&str) -> String>(
    regexes: Vec<&Pattern>,
    content: String,
    decoder: F,
) -> (r: Vec<(String, String)>)
    requires
        forall|x: &str|
            all_matches(sources(regexes@), content@).contains(x@) ==> #[trigger] call_requires(
                decoder,
                (x,),
            ),
    ensures
        decoded_matches(decoder, sources(regexes@), content@, r.deep_view()),
        r@.len() == 0 <==> forall|i: int|
            0 <= i < regexes@.len() ==> !regex_is_match(#[trigger] regexes@[i]@, content@),
{
    let mut matchs: Vec<(String, String)> = Vec::new();
    let ghost srcs = sources(regexes@);
    for j in 0..regexes.len()
        invariant
            srcs == sources(regexes@),
            forall|x: &str|
                all_matches(srcs, content@).contains(x@) ==> #[trigger] call_requires(
                    decoder,
                    (x,),
                ),
            decoded_matches(decoder, srcs.take(j as int), content@, matchs.deep_view()),
            matchs@.len() == 0 <==> forall|i: int|
                0 <= i < j ==> !regex_is_match(#[trigger] regexes@[i]@, content@),
    {
        let found = regexes[j].find_all(content.as_str());
        let ghost before = matchs.deep_view();
        let ghost prefix = all_matches(srcs.take(j as int), content@);
        proof {
            assert(srcs.take(j + 1).drop_last() =~= srcs.take(j as int));
            assert(all_matches(srcs.take(j + 1), content@) == prefix + found.deep_view());
            lemma_all_matches_prefix(srcs, j + 1, content@);
        }
        for k in 0..found.len()
            invariant
                srcs == sources(regexes@),
                j < regexes@.len(),
                srcs.len() == regexes@.len(),
                found.deep_view() == regex_find_all(srcs[j as int], content@),
                prefix == all_matches(srcs.take(j as int), content@),
                all_matches(srcs.take(j + 1), content@) == prefix + found.deep_view(),
                forall|x: &str|
                    all_matches(srcs, content@).contains(x@) ==> #[trigger] call_requires(
                        decoder,
                        (x,),
                    ),
                forall|m: Seq<char>| #[trigger]
                    all_matches(srcs.take(j + 1), content@).contains(m) ==> all_matches(
                        srcs,
                        content@,
                    ).contains(m),
                matchs@.len() == prefix.len() + k,
                found@.len() > 0 <==> regex_is_match(regexes@[j as int]@, content@),
                prefix.len() == 0 <==> forall|i: int|
                    0 <= i < j ==> !regex_is_match(#[trigger] regexes@[i]@, content@),
                decoded_matches(
                    decoder,
                    srcs.take(j as int),
                    content@,
                    matchs.deep_view().take(prefix.len() as int),
                ),
                forall|i: int|
                    0 <= i < k ==> (#[trigger] matchs.deep_view()[prefix.len() + i]).0
                        == found.deep_view()[i] && decodes_to(
                        decoder,
                        found.deep_view()[i],
                        matchs.deep_view()[prefix.len() + i].1,
                    ),
        {
            let m = found[k].as_str();
            proof {
                assert(all_matches(srcs.take(j + 1), content@)[prefix.len() + k] == m@);
                assert(all_matches(srcs.take(j + 1), content@).contains(m@));
                assert(all_matches(srcs, content@).contains(m@));
            }
            let d = decoder(m);
            let ghost old_view = matchs.deep_view();
            matchs.push((found[k].clone(), d));
            proof {
                assert(matchs.deep_view().take(prefix.len() as int) =~= old_view.take(
                    prefix.len() as int,
                ));
                assert(matchs.deep_view()[prefix.len() + k] == (m@, d@));
                assert(decodes_to(decoder, m@, d@));
                assert forall|i: int| 0 <= i < k + 1 implies (
                #[trigger] matchs.deep_view()[prefix.len() + i]).0 == found.deep_view()[i]
                    && decodes_to(decoder, found.deep_view()[i], matchs.deep_view()[prefix.len() + i].1) by {
                    if i < k {
                        assert(matchs.deep_view()[prefix.len() + i] == old_view[prefix.len() + i]);
                    }
                }
            }
        }
        proof {
            let now = matchs.deep_view();
            let all = all_matches(srcs.take(j + 1), content@);
            assert forall|i: int| 0 <= i < now.len() implies (#[trigger] now[i]).0 == all[i]
                && decodes_to(decoder, all[i], now[i].1) by {
                if i < prefix.len() {
                    assert(now.take(prefix.len() as int)[i] == now[i]);
                } else {
                    assert(now[prefix.len() + (i - prefix.len())] == now[i]);
                }
            }
        }
    }
    assert(srcs.take(regexes@.len() as int) =~= srcs);
    matchs
}

/// The matches of a regex are all found in the whole list.
proof fn lemma_all_matches_prefix(patterns: Seq<Seq<char>>, n: int, content: Seq<char>)
    requires
        0 <= n <= patterns.len(),
    ensures
        forall|m: Seq<char>| #[trigger]
            all_matches(patterns.take(n), content).contains(m) ==> all_matches(
                patterns,
                content,
            ).contains(m),
    decreases patterns.len(),
{
    if n < patterns.len() {
        lemma_all_matches_prefix(patterns.drop_last(), n, content);
        assert(patterns.drop_last().take(n) =~= patterns.take(n));
        assert forall|m: Seq<char>| #[trigger]
            all_matches(patterns.drop_last(), content).contains(m) implies all_matches(
            patterns,
            content,
        ).contains(m) by {
            let i = choose|i: int|
                0 <= i < all_matches(patterns.drop_last(), content).len() && all_matches(
                    patterns.drop_last(),
                    content,
                )[i] == m;
            assert(all_matches(patterns, content)[i] == m);
        }
    } else {
        assert(patterns.take(n) =~= patterns);
    }
}

/// A decoder's output that is not valid percent-encoded UTF-8.
pub struct UndecodableMatch {
    pub decoded: String,
}

/// `content` after each pair in turn has had every occurrence of its first
/// text replaced by the URL-decoding of its second text; `Err` with the
/// first second text that does not URL-decode.
pub open spec fn apply_decoded(content: Seq<char>, pairs: Seq<(Seq<char>, Seq<char>)>) -> Result<
    Seq<char>,
    Seq<char>,
>
    decreases pairs.len(),
{
    if pairs.len() == 0 {
        Ok(content)
    } else {
        match apply_decoded(content, pairs.drop_last()) {
            Err(e) => Err(e),
            Ok(c) => match spec_url_decode(pairs.last().1) {
                None => Err(pairs.last().1),
                Some(d) => Ok(spec_replace(c, pairs.last().0, d)),
            },
        }
    }
}

/// What replacing the decoded `pairs` in `content` answers: nothing when
/// there is no pair, else the rewritten text or the undecodable text.
pub open spec fn replacement_outcome(
    content: Seq<char>,
    pairs: Seq<(Seq<char>, Seq<char>)>,
    r: Result<Option<String>, UndecodableMatch>,
) -> bool {
    if pairs.len() == 0 {
        r matches Ok(None)
    } else {
        match apply_decoded(content, pairs) {
            Ok(c) => r matches Ok(Some(t)) && t@ == c,
            Err(e) => r matches Err(u) && u.decoded@ == e,
        }
    }
}

/// `content` with the first text of each pair in turn replaced by the
/// URL-decoding of its second text; `Ok(None)` when there is no pair, and
/// the first second text that does not URL-decode as the error.
pub fn replace_decoded(content: &str, pairs: &Vec<(String, String)>) -> (r: Result<
    Option<String>,
    UndecodableMatch,
>)
    ensures
        replacement_outcome(content@, pairs.deep_view(), r),
{
    let ghost pv = pairs.deep_view();
    if pairs.len() == 0 {
        assert(replacement_outcome(content@, pv, Ok(None)));
        return Ok(None);
    }
    let mut replaced = String::from_str(content);
    for i in 0..pairs.len()
        invariant
            pv == pairs.deep_view(),
            pv.len() > 0,
            apply_decoded(content@, pv.take(i as int)) == Ok::<Seq<char>, Seq<char>>(replaced@),
    {
        let (before, after) = (&pairs[i].0, &pairs[i].1);
        assert(pv.take(i + 1).drop_last() =~= pv.take(i as int));
        assert(pv[i as int] == (before@, after@));
        match url_decode(after.as_str()) {
            Some(decoded) => {
                replaced = replace(replaced.as_str(), before.as_str(), decoded.as_str());
            },
            None => {
                proof {
                    lemma_apply_decoded_err(content@, pv, (i + 1) as int);
                    assert(pv.take(pv.len() as int) =~= pv);
                }
                let err = UndecodableMatch { decoded: after.clone() };
                assert(replacement_outcome(content@, pv, Err(err)));
                return Err(err);
            },
        }
    }
    assert(pv.take(pv.len() as int) =~= pv);
    let r = Ok(Some(replaced));
    assert(replacement_outcome(content@, pv, r));
    r
}

/// Rewrites every match of the regexes in `content` with what `decoder`
/// makes of it, URL-decoded; `Ok(None)` when nothing matches.
pub fn replace_all_match<F: Fn(&str) -> String>(
    regexes: Vec<&Pattern>,
    content: String,
    decoder: F,
) -> (r: Result<Option<String>, UndecodableMatch>)
    requires
        forall|x: &str|
            all_matches(sources(regexes@), content@).contains(x@) ==> #[trigger] call_requires(
                decoder,
                (x,),
            ),
    ensures
        r matches Ok(None) <==> forall|i: int|
            0 <= i < regexes@.len() ==> !regex_is_match(#[trigger] regexes@[i]@, content@),
        exists|pairs: Seq<(Seq<char>, Seq<char>)>|
            decoded_matches(decoder, sources(regexes@), content@, pairs) && replacement_outcome(
                content@,
                pairs,
                r,
            ),
{
    let ghost srcs = sources(regexes@);
    let matches = get_all_match(regexes, content.clone(), decoder);
    let r = replace_decoded(content.as_str(), &matches);
    assert(decoded_matches(decoder, srcs, content@, matches.deep_view()));
    r
}

/// Once a prefix of the pairs fails to decode, the whole list fails with
/// the same text.
proof fn lemma_apply_decoded_err(
    content: Seq<char>,
    pairs: Seq<(Seq<char>, Seq<char>)>,
    n: int,
)
    requires
        0 <= n <= pairs.len(),
        apply_decoded(content, pairs.take(n)) is Err,
    ensures
        apply_decoded(content, pairs) == apply_decoded(content, pairs.take(n)),
    decreases pairs.len(),
{
    if n < pairs.len() {
        assert(pairs.drop_last().take(n) =~= pairs.take(n));
        lemma_apply_decoded_err(content, pairs.drop_last(), n);
    } else {
        assert(pairs.take(n) =~= pairs);
    }
}

/// Bytes without `%` percent-decode to themselves.
proof fn lemma_percent_decode_plain(b: Seq<u8>)
    requires
        forall|i: int| 0 <= i < b.len() ==> b[i] != 37,
    ensures
        spec_percent_decode(b) == b,
    decreases b.len(),
{
    if b.len() > 0 {
        lemma_percent_decode_plain(b.skip(1));
        assert(seq![b[0]] + b.skip(1) =~= b);
    }
}

/// No byte of the UTF-8 form of a char other than `%` is the byte of `%`.
proof fn lemma_scalar_not_percent(c: u32)
    requires
        is_scalar(c),
        c != 37,
    ensures
        forall|i: int| 0 <= i < encode_scalar(c).len() ==> encode_scalar(c)[i] != 37,
{
    assert(c <= 0x7F ==> (c & 0x7F) as u8 != 37u8) by (bit_vector)
        requires
            c != 37,
    ;
    assert((0xC0u8 | ((c >> 6) & 0x1F) as u8) != 37u8) by (bit_vector);
    assert((0xE0u8 | ((c >> 12) & 0x0F) as u8) != 37u8) by (bit_vector);
    assert((0xF0u8 | ((c >> 18) & 0x7) as u8) != 37u8) by (bit_vector);
    assert((0x80u8 | (c & 0x3F) as u8) != 37u8) by (bit_vector);
    assert((0x80u8 | ((c >> 6) & 0x3F) as u8) != 37u8) by (bit_vector);
    assert((0x80u8 | ((c >> 12) & 0x3F) as u8) != 37u8) by (bit_vector);
}

/// The UTF-8 form of a text without `%` has no `%` byte.
proof fn lemma_encode_no_percent(s: Seq<char>)
    requires
        !s.contains('%'),
    ensures
        forall|i: int| 0 <= i < encode_utf8(s).len() ==> encode_utf8(s)[i] != 37,
    decreases s.len(),
{
    if s.len() > 0 {
        assert(!s.drop_first().contains('%')) by {
            if s.drop_first().contains('%') {
                let j = choose|j: int| 0 <= j < s.drop_first().len() && s.drop_first()[j] == '%';
                assert(s[j + 1] == '%');
            }
        }
        lemma_encode_no_percent(s.drop_first());
        char_is_scalar(s[0]);
        assert(s[0] != '%');
        assert((s[0] as u32) != 37) by {
            if (s[0] as u32) == 37 {
                char_u32_cast(s[0], 37u32);
                assert((37u32 as char) == '%');
            }
        }
        lemma_scalar_not_percent(s[0] as u32);
        let head = encode_scalar(s[0] as u32);
        let tail = encode_utf8(s.drop_first());
        assert forall|i: int| 0 <= i < encode_utf8(s).len() implies encode_utf8(s)[i] != 37 by {
            if i < head.len() {
                assert(encode_utf8(s)[i] == head[i]);
            } else {
                assert(encode_utf8(s)[i] == tail[i - head.len()]);
            }
        }
    }
}

/// A text without `%` URL-decodes to itself.
pub proof fn law_url_decode_plain_text(s: Seq<char>)
    requires
        !s.contains('%'),
    ensures
        spec_url_decode(s) == Some(s),
{
    lemma_encode_no_percent(s);
    lemma_percent_decode_plain(encode_utf8(s));
    encode_utf8_valid_utf8(s);
    encode_utf8_decode_utf8(s);
}

} // verus!
