//! Character-level string operations with their specifications.
use vstd::prelude::*;
use vstd::utf8::{char_is_scalar, encode_scalar, encode_utf8};

verus! {

/// `s` with every non-overlapping occurrence of `from`, scanned left to
/// right, replaced by `to`; an empty `from` matches at every char boundary.
pub open spec fn spec_replace(s: Seq<char>, from: Seq<char>, to: Seq<char>) -> Seq<char>
    decreases s.len(),
{
    if from.len() == 0 {
        spec_insert_everywhere(s, to)
    } else if s.len() < from.len() {
        s
    } else if s.take(from.len() as int) == from {
        to + spec_replace(s.skip(from.len() as int), from, to)
    } else {
        seq![s[0]] + spec_replace(s.skip(1), from, to)
    }
}

/// `to` placed before every char of `s` and once more at its end.
pub open spec fn spec_insert_everywhere(s: Seq<char>, to: Seq<char>) -> Seq<char>
    decreases s.len(),
{
    if s.len() == 0 {
        to
    } else {
        to + seq![s[0]] + spec_insert_everywhere(s.skip(1), to)
    }
}

/// Appends one char to a string.
#[verifier::external_body]
fn push_char(s: &mut String, c: char)
    ensures
        final(s)@ == old(s)@.push(c),
{
    s.push(c);
}

/// The chars of `s`, in order.
pub fn chars_of(s: &str) -> (r: Vec<char>)
    ensures
        r@ == s@,
{
    let n = s.unicode_len();
    let mut r: Vec<char> = Vec::new();
    for i in 0..n
        invariant
            n == s@.len(),
            r@ == s@.take(i as int),
    {
        r.push(s.get_char(i));
        assert(s@.take(i + 1) =~= s@.take(i as int).push(s@[i as int]));
    }
    assert(s@.take(n as int) =~= s@);
    r
}

/// The string made of the chars of `v`.
pub fn string_of(v: &Vec<char>) -> (r: String)
    ensures
        r@ == v@,
{
    let mut r = String::new();
    for i in 0..v.len()
        invariant
            r@ == v@.take(i as int),
    {
        push_char(&mut r, v[i]);
        assert(v@.take(i + 1) =~= v@.take(i as int).push(v@[i as int]));
    }
    assert(v@.take(v@.len() as int) =~= v@);
    r
}

/// Whether `pat` occurs in `s` at position `at`.
fn occurs_at(s: &Vec<char>, at: usize, pat: &Vec<char>) -> (r: bool)
    requires
        at <= s.len(),
    ensures
        r == (s.len() - at >= pat.len() && s@.skip(at as int).take(pat.len() as int) == pat@),
{
    if s.len() - at < pat.len() {
        return false;
    }
    let mut j: usize = 0;
    while j < pat.len()
        invariant
            at + pat.len() <= s.len(),
            j <= pat.len(),
            forall|k: int| 0 <= k < j ==> s@[at + k] == pat@[k],
        decreases pat.len() - j,
    {
        if s[at + j] != pat[j] {
            assert(s@.skip(at as int).take(pat.len() as int)[j as int] != pat@[j as int]);
            return false;
        }
        j += 1;
    }
    assert(s@.skip(at as int).take(pat.len() as int) =~= pat@);
    true
}

/// Every non-overlapping occurrence of `from` in `s`, leftmost first,
/// replaced by `to` (the behaviour of `str::replace`).
pub fn replace(s: &str, from: &str, to: &str) -> (r: String)
    ensures
        r@ == spec_replace(s@, from@, to@),
{
    let sv = chars_of(s);
    let fv = chars_of(from);
    let tv = chars_of(to);
    let mut out: Vec<char> = Vec::new();
    let mut i: usize = 0;
    assert(sv@.skip(0) =~= sv@);
    if fv.len() == 0 {
        while i < sv.len()
            invariant
                i <= sv.len(),
                fv@.len() == 0,
                spec_replace(sv@, fv@, tv@) == out@ + spec_insert_everywhere(sv@.skip(i as int), tv@),
            decreases sv.len() - i,
        {
            let ghost rest = sv@.skip(i as int);
            let ghost before = out@;
            out.append(&mut tv.clone());
            out.push(sv[i]);
            assert(rest.skip(1) =~= sv@.skip(i + 1));
            assert(before + spec_insert_everywhere(rest, tv@) =~= out@ + spec_insert_everywhere(
                sv@.skip(i + 1),
                tv@,
            ));
            i += 1;
        }
        out.append(&mut tv.clone());
        return string_of(&out);
    }
    while i < sv.len()
        invariant
            i <= sv.len(),
            fv@.len() > 0,
            spec_replace(sv@, fv@, tv@) == out@ + spec_replace(sv@.skip(i as int), fv@, tv@),
        decreases sv.len() - i,
    {
        let ghost rest = sv@.skip(i as int);
        if occurs_at(&sv, i, &fv) {
            out.append(&mut tv.clone());
            assert(rest.skip(fv@.len() as int) =~= sv@.skip(i + fv@.len()));
            i += fv.len();
        } else {
            out.push(sv[i]);
            assert(rest.skip(1) =~= sv@.skip(i + 1));
            i += 1;
        }
    }
    string_of(&out)
}


/// The decimal digit char for `d < 10`.
pub open spec fn digit_char(d: nat) -> char {
    (48 + d) as char
}

/// Whether `c` is one of `0`..`9`.
pub open spec fn is_digit(c: char) -> bool {
    '0' <= c && c <= '9'
}

/// The decimal notation of `n`, without leading zeros.
pub open spec fn spec_decimal(n: nat) -> Seq<char>
    decreases n,
{
    if n < 10 {
        seq![digit_char(n)]
    } else {
        spec_decimal(n / 10).push(digit_char(n % 10))
    }
}

/// The number that a sequence of decimal digits denotes.
pub open spec fn digits_value(s: Seq<char>) -> nat
    decreases s.len(),
{
    if s.len() == 0 {
        0
    } else {
        digits_value(s.drop_last()) * 10 + ((s.last() as u32) - 48) as nat
    }
}

/// Whether every char of `s` is a decimal digit.
pub open spec fn all_digits(s: Seq<char>) -> bool {
    forall|i: int| 0 <= i < s.len() ==> is_digit(#[trigger] s[i])
}

/// The part of `s` that holds the digits: `s` without a leading `+`, unless
/// `s` is that `+` alone.
pub open spec fn unsigned_digits(s: Seq<char>) -> Seq<char> {
    if s.len() > 1 && s[0] == '+' {
        s.skip(1)
    } else {
        s
    }
}

/// What `str::parse::<u64>` gives: an optional `+`, then one or more
/// decimal digits whose value fits in a `u64`.
pub open spec fn spec_parse_u64(s: Seq<char>) -> Option<u64> {
    if s.len() > 0 && all_digits(unsigned_digits(s)) && digits_value(unsigned_digits(s)) <= u64::MAX {
        Some(digits_value(unsigned_digits(s)) as u64)
    } else {
        None
    }
}

fn push_decimal(n: u64, out: &mut Vec<char>)
    ensures
        final(out)@ == old(out)@ + spec_decimal(n as nat),
    decreases n,
{
    if n >= 10 {
        push_decimal(n / 10, out);
    }
    let d: u8 = (n % 10) as u8;
    let c: char = (48u8 + d) as char;
    assert(c == digit_char((n % 10) as nat));
    out.push(c);
}

/// The decimal notation of `n` (the behaviour of `u64::to_string`).
pub fn decimal(n: u64) -> (r: String)
    ensures
        r@ == spec_decimal(n as nat),
{
    let mut v: Vec<char> = Vec::new();
    push_decimal(n, &mut v);
    assert(v@ =~= spec_decimal(n as nat));
    string_of(&v)
}

proof fn lemma_digits_value_push(s: Seq<char>, c: char)
    ensures
        digits_value(s.push(c)) == digits_value(s) * 10 + ((c as u32) - 48) as nat,
{
    assert(s.push(c).drop_last() =~= s);
}

/// Parses `s` as `str::parse::<u64>` does.
pub fn parse_u64(s: &str) -> (r: Option<u64>)
    ensures
        r == spec_parse_u64(s@),
{
    let v = chars_of(s);
    if v.len() == 0 {
        return None;
    }
    let start: usize = if v.len() > 1 && v[0] == '+' {
        1
    } else {
        0
    };
    let ghost digits = unsigned_digits(s@);
    assert(digits =~= v@.skip(start as int));
    let mut acc: u64 = 0;
    let mut i: usize = start;
    while i < v.len()
        invariant
            start <= i <= v.len(),
            v@ == s@,
            v@.len() > 0,
            digits == v@.skip(start as int),
            digits == unsigned_digits(s@),
            forall|k: int| 0 <= k < i - start ==> is_digit(#[trigger] digits[k]),
            acc as nat == digits_value(digits.take(i - start)),
        decreases v.len() - i,
    {
        let c = v[i];
        if !('0' <= c && c <= '9') {
            assert(!is_digit(digits[i - start]));
            return None;
        }
        let d: u64 = ((c as u32) - 48) as u64;
        proof {
            lemma_digits_value_push(digits.take(i - start), c);
            assert(digits.take(i + 1 - start) =~= digits.take(i - start).push(c));
        }
        if acc > (u64::MAX - d) / 10 {
            proof {
                if all_digits(digits) {
                    lemma_value_prefix_bound(digits, (i + 1 - start) as int);
                }
            }
            return None;
        }
        acc = acc * 10 + d;
        i += 1;
    }
    assert(digits.take(i - start) =~= digits);
    Some(acc)
}

/// A longer run of digits never denotes a smaller number.
proof fn lemma_value_prefix_bound(s: Seq<char>, k: int)
    requires
        0 <= k <= s.len(),
        forall|i: int| 0 <= i < s.len() ==> is_digit(#[trigger] s[i]),
    ensures
        digits_value(s.take(k)) <= digits_value(s),
    decreases s.len(),
{
    if k < s.len() {
        lemma_value_prefix_bound(s.drop_last(), k);
        assert(s.drop_last().take(k) =~= s.take(k));
    } else {
        assert(s.take(k) =~= s);
    }
}

/// The decimal notation of `n` is a non-empty run of digits that denotes `n`.
pub proof fn lemma_decimal_digits(n: nat)
    ensures
        spec_decimal(n).len() > 0,
        all_digits(spec_decimal(n)),
        digits_value(spec_decimal(n)) == n,
    decreases n,
{
    assert((digit_char(n % 10) as u32) == 48 + n % 10);
    if n < 10 {
        assert(seq![digit_char(n)].drop_last() =~= Seq::<char>::empty());
        assert(digits_value(Seq::<char>::empty()) == 0);
        assert(spec_decimal(n) == seq![digit_char(n)]);
    }
    if n >= 10 {
        lemma_decimal_digits(n / 10);
        lemma_digits_value_push(spec_decimal(n / 10), digit_char(n % 10));
        assert((n / 10) * 10 + n % 10 == n) by (nonlinear_arith);

        let d = spec_decimal(n / 10);
        assert(spec_decimal(n).drop_last() =~= d);
        assert forall|i: int| 0 <= i < spec_decimal(n).len() implies is_digit(
            #[trigger] spec_decimal(n)[i],
        ) by {
            if i < d.len() {
                assert(spec_decimal(n)[i] == d[i]);
            }
        }
    }
}

/// Parsing the decimal notation of a number gives the number back.
pub proof fn law_parse_decimal_roundtrip(n: u64)
    ensures
        spec_parse_u64(spec_decimal(n as nat)) == Some(n),
{
    lemma_decimal_digits(n as nat);
    assert(is_digit(spec_decimal(n as nat)[0]));
    assert(unsigned_digits(spec_decimal(n as nat)) == spec_decimal(n as nat));
}

/// The texts of `list` with `sep` between each two of them.
pub open spec fn spec_join(list: Seq<Seq<char>>, sep: Seq<char>) -> Seq<char>
    decreases list.len(),
{
    if list.len() == 0 {
        Seq::empty()
    } else if list.len() == 1 {
        list[0]
    } else {
        spec_join(list.drop_last(), sep) + sep + list.last()
    }
}

/// Joins the strings of `list` with `sep` (the behaviour of `[String]::join`).
pub fn join(list: &Vec<String>, sep: &str) -> (r: String)
    ensures
        r@ == spec_join(list.deep_view(), sep@),
{
    let mut r = String::new();
    let ghost lv = list.deep_view();
    for i in 0..list.len()
        invariant
            lv == list.deep_view(),
            r@ == spec_join(lv.take(i as int), sep@),
    {
        assert(lv.take(i + 1).drop_last() =~= lv.take(i as int));
        if i != 0 {
            r.append(sep);
        }
        r.append(list[i].as_str());
        assert(lv.take(i + 1).last() == lv[i as int]);
    }
    assert(lv.take(list.len() as int) =~= lv);
    r
}

/// Whether two texts are equal.
pub fn same_text(a: &str, b: &str) -> (r: bool)
    ensures
        r == (a@ == b@),
{
    let av = chars_of(a);
    let bv = chars_of(b);
    if av.len() != bv.len() {
        return false;
    }
    let r = occurs_at(&av, 0, &bv);
    assert(av@.skip(0).take(bv@.len() as int) =~= av@);
    r
}

/// The UTF-8 encoding of a concatenation is the concatenation of the
/// encodings.
pub proof fn lemma_encode_utf8_concat(a: Seq<char>, b: Seq<char>)
    ensures
        encode_utf8(a + b) == encode_utf8(a) + encode_utf8(b),
    decreases a.len(),
{
    if a.len() > 0 {
        lemma_encode_utf8_concat(a.drop_first(), b);
        assert((a + b).drop_first() =~= a.drop_first() + b);
        assert((a + b)[0] == a[0]);
        assert(encode_utf8(a + b) =~= encode_scalar(a[0] as u32) + (encode_utf8(a.drop_first())
            + encode_utf8(b)));
    } else {
        assert(a + b =~= b);
        assert(encode_utf8(a) =~= Seq::<u8>::empty());
        assert(encode_utf8(a) + encode_utf8(b) =~= encode_utf8(b));
    }
}

/// The number of UTF-8 bytes of `c`.
fn utf8_width(c: char) -> (r: usize)
    ensures
        r == encode_scalar(c as u32).len(),
{
    proof {
        char_is_scalar(c);
    }
    let u = c as u32;
    if u <= 0x7F {
        1
    } else if u <= 0x7FF {
        2
    } else if u <= 0xFFFF {
        3
    } else {
        4
    }
}

/// Whether the UTF-8 form of `s` has more than `limit` bytes.
pub fn utf8_longer_than(s: &str, limit: usize) -> (r: bool)
    ensures
        r == (encode_utf8(s@).len() > limit),
{
    let v = chars_of(s);
    let mut acc: usize = 0;
    for i in 0..v.len()
        invariant
            v@ == s@,
            acc <= limit,
            acc == encode_utf8(v@.take(i as int)).len(),
    {
        let w = utf8_width(v[i]);
        proof {
            lemma_encode_utf8_concat(v@.take(i as int), seq![v@[i as int]]);
            assert(v@.take(i + 1) =~= v@.take(i as int) + seq![v@[i as int]]);
            assert(seq![v@[i as int]].drop_first() =~= Seq::<char>::empty());
            assert(encode_utf8(seq![v@[i as int]]) =~= encode_scalar(v@[i as int] as u32)
                + encode_utf8(Seq::<char>::empty()));
        }
        if w > limit - acc {
            proof {
                lemma_encode_prefix_len(s@, (i + 1) as int);
            }
            return true;
        }
        acc = acc + w;
    }
    assert(v@.take(v@.len() as int) =~= s@);
    false
}

/// The UTF-8 form of a prefix is no longer than that of the whole text.
proof fn lemma_encode_prefix_len(s: Seq<char>, n: int)
    requires
        0 <= n <= s.len(),
    ensures
        encode_utf8(s.take(n)).len() <= encode_utf8(s).len(),
{
    lemma_encode_utf8_concat(s.take(n), s.skip(n));
    assert(s.take(n) + s.skip(n) =~= s);
}

/// Removing a char with `spec_replace`, one char at a time.
pub proof fn lemma_remove_char_step(s: Seq<char>, c: char)
    requires
        s.len() > 0,
    ensures
        spec_replace(s, seq![c], Seq::empty()) == (if s[0] == c {
            spec_replace(s.skip(1), seq![c], Seq::empty())
        } else {
            seq![s[0]] + spec_replace(s.skip(1), seq![c], Seq::empty())
        }),
{
    if s[0] == c {
        assert(s.take(1) =~= seq![c]);
        assert(Seq::<char>::empty() + spec_replace(s.skip(1), seq![c], Seq::empty()) =~= spec_replace(
            s.skip(1),
            seq![c],
            Seq::empty(),
        ));
    } else {
        assert(s.take(1) != seq![c]) by {
            assert(s.take(1)[0] == s[0]);
        }
    }
}

/// Removing a char from a concatenation removes it from each part.
pub proof fn lemma_remove_char_concat(a: Seq<char>, b: Seq<char>, c: char)
    ensures
        spec_replace(a + b, seq![c], Seq::empty()) == spec_replace(a, seq![c], Seq::empty())
            + spec_replace(b, seq![c], Seq::empty()),
    decreases a.len(),
{
    if a.len() == 0 {
        assert(a + b =~= b);
        assert(spec_replace(a, seq![c], Seq::empty()) =~= Seq::<char>::empty());
        assert(Seq::<char>::empty() + spec_replace(b, seq![c], Seq::empty()) =~= spec_replace(
            b,
            seq![c],
            Seq::empty(),
        ));
    } else {
        lemma_remove_char_concat(a.skip(1), b, c);
        lemma_remove_char_step(a + b, c);
        lemma_remove_char_step(a, c);
        assert((a + b).skip(1) =~= a.skip(1) + b);
        assert((a + b)[0] == a[0]);
        if a[0] != c {
            assert(seq![a[0]] + (spec_replace(a.skip(1), seq![c], Seq::empty()) + spec_replace(
                b,
                seq![c],
                Seq::empty(),
            )) =~= (seq![a[0]] + spec_replace(a.skip(1), seq![c], Seq::empty())) + spec_replace(
                b,
                seq![c],
                Seq::empty(),
            ));
        }
    }
}

/// Removing a char that does not occur changes nothing.
pub proof fn lemma_remove_char_absent(s: Seq<char>, c: char)
    requires
        !s.contains(c),
    ensures
        spec_replace(s, seq![c], Seq::empty()) == s,
    decreases s.len(),
{
    if s.len() > 0 {
        assert(!s.skip(1).contains(c)) by {
            if s.skip(1).contains(c) {
                let i = choose|i: int| 0 <= i < s.skip(1).len() && s.skip(1)[i] == c;
                assert(s[i + 1] == c);
            }
        }
        lemma_remove_char_absent(s.skip(1), c);
        lemma_remove_char_step(s, c);
        assert(s[0] != c);
        assert(seq![s[0]] + s.skip(1) =~= s);
    } else {
        assert(spec_replace(s, seq![c], Seq::empty()) =~= s);
    }
}

} // verus!
