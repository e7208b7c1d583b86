use vstd::prelude::*;
use crate::strings::{has_prefix, push_char, push_chars, starts_with, to_chars};

verus! {

/// The value of a hexadecimal digit (`0`-`9`, `a`-`f`, `A`-`F`).
pub open spec fn hex_digit(c: char) -> Option<u8> {
    if '0' <= c && c <= '9' {
        Some((c as u32 - '0' as u32) as u8)
    } else if 'a' <= c && c <= 'f' {
        Some((c as u32 - 'a' as u32 + 10) as u8)
    } else if 'A' <= c && c <= 'F' {
        Some((c as u32 - 'A' as u32 + 10) as u8)
    } else {
        None
    }
}

/// The byte that a text of at most two characters spells in base 16, as
/// `u8::from_str_radix(h, 16)` reads it: an optional `+` and then one or two
/// hexadecimal digits; anything else spells no byte.
pub open spec fn hex_byte(h: Seq<char>) -> Option<u8>
    recommends
        h.len() <= 2,
{
    let d = if h.len() > 0 && h[0] == '+' {
        h.drop_first()
    } else {
        h
    };
    if d.len() == 1 && hex_digit(d[0]) is Some {
        Some(hex_digit(d[0])->0)
    } else if d.len() == 2 && hex_digit(d[0]) is Some && hex_digit(d[1]) is Some {
        Some((hex_digit(d[0])->0 * 16 + hex_digit(d[1])->0) as u8)
    } else {
        None
    }
}

/// The (at most two) characters that follow a `%` at the start of `s`.
pub open spec fn escape_digits(s: Seq<char>) -> Seq<char> {
    if s.len() >= 3 {
        s.subrange(1, 3)
    } else {
        s.skip(1)
    }
}

/// The text that a form-encoded text `s` stands for: `+` stands for a space;
/// `%` and the (at most two) characters after it stand for the character whose
/// code is the byte that those characters spell in base 16, or for themselves
/// where they spell none; every other character stands for itself.
pub open spec fn url_decoded(s: Seq<char>) -> Seq<char>
    decreases s.len(),
{
    if s.len() == 0 {
        Seq::empty()
    } else if s[0] == '%' {
        let h = escape_digits(s);
        let rest = s.skip(1 + h.len() as int);
        match hex_byte(h) {
            Some(b) => seq![b as char] + url_decoded(rest),
            None => seq!['%'] + h + url_decoded(rest),
        }
    } else if s[0] == '+' {
        seq![' '] + url_decoded(s.drop_first())
    } else {
        seq![s[0]] + url_decoded(s.drop_first())
    }
}

fn hex_digit_of(c: char) -> (r: Option<u8>)
    ensures
        r == hex_digit(c),
{
    if '0' <= c && c <= '9' {
        Some((c as u32 - '0' as u32) as u8)
    } else if 'a' <= c && c <= 'f' {
        Some((c as u32 - 'a' as u32 + 10) as u8)
    } else if 'A' <= c && c <= 'F' {
        Some((c as u32 - 'A' as u32 + 10) as u8)
    } else {
        None
    }
}

/// Reads the byte that `h` (at most two characters) spells in base 16.
fn parse_hex_byte(h: &[char]) -> (r: Option<u8>)
    requires
        h@.len() <= 2,
    ensures
        r == hex_byte(h@),
{
    let skip: usize = if h.len() > 0 && h[0] == '+' { 1 } else { 0 };
    let ghost d = if h@.len() > 0 && h@[0] == '+' { h@.drop_first() } else { h@ };
    assert(d == h@.skip(skip as int));
    let n = h.len() - skip;
    if n == 1 {
        match hex_digit_of(h[skip]) {
            Some(v) => Some(v),
            None => None,
        }
    } else if n == 2 {
        match (hex_digit_of(h[skip]), hex_digit_of(h[skip + 1])) {
            (Some(hi), Some(lo)) => Some(hi * 16 + lo),
            _ => None,
        }
    } else {
        None
    }
}

/// Decodes a form-encoded text: `+` becomes a space, and `%` followed by
/// (at most) two characters becomes the character whose code is the byte that
/// they spell in base 16; where they spell none, `%` and those characters are
/// kept as they are.
pub fn urlencoding_decode(s: &str) -> (r: String)
    ensures
        r@ == url_decoded(s@),
{
    let v = to_chars(s);
    decode_chars(v.as_slice())
}

/// `urlencoding_decode` on a text given by its characters.
fn decode_chars(v: &[char]) -> (r: String)
    ensures
        r@ == url_decoded(v@),
{
    let n = v.len();
    let mut r = String::new();
    let mut i: usize = 0;
    assert(v@.skip(0) == v@);
    assert(r@ + url_decoded(v@) == url_decoded(v@));
    while i < n
        invariant
            n == v@.len(),
            i <= n,
            r@ + url_decoded(v@.skip(i as int)) == url_decoded(v@),
        decreases n - i,
    {
        let ghost t = v@.skip(i as int);
        let ghost before = r@;
        if v[i] == '%' {
            let k: usize = if n - i >= 3 { 2 } else { n - i - 1 };
            let h = vstd::slice::slice_subrange(v, i + 1, i + 1 + k);
            assert(h@ == escape_digits(t));
            match parse_hex_byte(h) {
                Some(b) => {
                    push_char(&mut r, b as char);
                    assert(r@ == before + seq![b as char]);
                },
                None => {
                    push_char(&mut r, '%');
                    push_chars(&mut r, h);
                    assert(r@ == before + (seq!['%'] + h@));
                },
            }
            assert(t.skip(1 + k) == v@.skip(i + 1 + k));
            i = i + 1 + k;
        } else if v[i] == '+' {
            push_char(&mut r, ' ');
            assert(t.drop_first() == v@.skip(i + 1));
            i = i + 1;
        } else {
            push_char(&mut r, v[i]);
            assert(t.drop_first() == v@.skip(i + 1));
            i = i + 1;
        }
    }
    assert(r@ + url_decoded(v@.skip(n as int)) == r@);
    r
}

/// Text without `%` and `+` decodes to itself.
pub proof fn law_decode_keeps_plain_text(s: Seq<char>)
    requires
        forall|k: int| 0 <= k < s.len() ==> #[trigger] s[k] != '%' && s[k] != '+',
    ensures
        url_decoded(s) == s,
    decreases s.len(),
{
    if s.len() > 0 {
        let t = s.drop_first();
        assert forall|k: int| 0 <= k < t.len() implies #[trigger] t[k] != '%' && t[k] != '+' by {
            assert(t[k] == s[k + 1]);
        }
        law_decode_keeps_plain_text(t);
        assert(seq![s[0]] + t == s);
    }
}

/// The upper-case hexadecimal digit of `d` (`0 <= d < 16`).
pub open spec fn hex_upper(d: int) -> char {
    if d < 10 {
        ('0' as int + d) as char
    } else {
        ('A' as int + (d - 10)) as char
    }
}

/// `t` written with every character as `%XX`, its code in two upper-case
/// hexadecimal digits (meant for characters up to U+00FF).
pub open spec fn percent_encoded(t: Seq<char>) -> Seq<char>
    decreases t.len(),
{
    if t.len() == 0 {
        Seq::empty()
    } else {
        let v = (t[0] as u32) as int;
        seq!['%', hex_upper(v / 16), hex_upper(v % 16)] + percent_encoded(t.drop_first())
    }
}

proof fn lemma_hex_upper(d: int)
    requires
        0 <= d < 16,
    ensures
        hex_upper(d) != '+',
        hex_digit(hex_upper(d)) == Some(d as u8),
{
}

/// Decoding undoes `%XX` encoding: every text of characters up to U+00FF,
/// written as `%XX` escapes, decodes back to itself.
pub proof fn law_percent_round_trip(t: Seq<char>)
    requires
        forall|k: int| 0 <= k < t.len() ==> (#[trigger] t[k] as u32) <= 0xFF,
    ensures
        url_decoded(percent_encoded(t)) == t,
    decreases t.len(),
{
    if t.len() > 0 {
        let c = t[0];
        let v = (c as u32) as int;
        let rest = t.drop_first();
        assert forall|k: int| 0 <= k < rest.len() implies (#[trigger] rest[k] as u32) <= 0xFF by {
            assert(rest[k] == t[k + 1]);
        }
        law_percent_round_trip(rest);
        let e = percent_encoded(t);
        let h = seq![hex_upper(v / 16), hex_upper(v % 16)];
        assert(t[0] as u32 <= 0xFF);
        lemma_hex_upper(v / 16);
        lemma_hex_upper(v % 16);
        assert(e[0] == '%');
        assert(escape_digits(e) == h);
        assert(e.skip(1 + h.len() as int) == percent_encoded(rest));
        let b = ((v / 16) * 16 + v % 16) as u8;
        assert(hex_byte(h) == Some(b));
        assert(b as int == v);
        vstd::utf8::char_u32_cast(c, c as u32);
        assert((b as u32) == (c as u32));
        assert(b as char == (b as u32) as char);
        assert(b as char == c);
        assert(seq![c] + rest == t);
    }
}

/// The text `http`.
pub open spec fn http_prefix() -> Seq<char> {
    seq!['h', 't', 't', 'p']
}

/// The text `https://`.
pub open spec fn https_scheme() -> Seq<char> {
    seq!['h', 't', 't', 'p', 's', ':', '/', '/']
}

/// The text `proxy.php?url=`, with which an image that goes through the
/// site's proxy is named.
pub open spec fn proxy_prefix() -> Seq<char> {
    seq!['p', 'r', 'o', 'x', 'y', '.', 'p', 'h', 'p', '?', 'u', 'r', 'l', '=']
}

/// The address from which an image named `s` is fetched: `s` itself where it
/// starts with `http`; the decoded rest where it is a proxy address
/// (`proxy.php?url=...`); else `s` behind `https://`.
pub open spec fn image_address(s: Seq<char>) -> Seq<char> {
    if starts_with(s, http_prefix()) {
        s
    } else if starts_with(s, proxy_prefix()) {
        url_decoded(s.skip(proxy_prefix().len() as int))
    } else {
        https_scheme() + s
    }
}

/// How an image address is resolved: an address that starts with `http`
/// is fetched exactly as it is (path, `?` query and all); the rest of a
/// `proxy.php?url=` address is fetched decoded; any other address is
/// fetched behind `https://`, itself kept whole after it.
pub proof fn law_image_address_cases(s: Seq<char>)
    ensures
        starts_with(s, seq!['h', 't', 't', 'p']) ==> image_address(s) == s,
        !starts_with(s, seq!['h', 't', 't', 'p']) && starts_with(
            s,
            seq!['p', 'r', 'o', 'x', 'y', '.', 'p', 'h', 'p', '?', 'u', 'r', 'l', '='],
        ) ==> image_address(s) == url_decoded(s.skip(14)),
        !starts_with(s, seq!['h', 't', 't', 'p']) && !starts_with(
            s,
            seq!['p', 'r', 'o', 'x', 'y', '.', 'p', 'h', 'p', '?', 'u', 'r', 'l', '='],
        ) ==> image_address(s).len() == s.len() + 8 && image_address(s).skip(8) == s
            && image_address(s).take(8) == seq!['h', 't', 't', 'p', 's', ':', '/', '/'],
{
    let h = seq!['h', 't', 't', 'p', 's', ':', '/', '/'];
    assert((h + s).skip(8) =~= s);
    assert((h + s).take(8) =~= h);
}

/// The full address of an image that a message names by `url`.
pub fn resolve_image_url(url: String) -> (r: String)
    ensures
        r@ == image_address(url@),
        starts_with(url@, seq!['h', 't', 't', 'p']) ==> r@ == url@,
        !starts_with(url@, seq!['h', 't', 't', 'p']) && starts_with(
            url@,
            seq!['p', 'r', 'o', 'x', 'y', '.', 'p', 'h', 'p', '?', 'u', 'r', 'l', '='],
        ) ==> r@ == url_decoded(url@.skip(14)),
        !starts_with(url@, seq!['h', 't', 't', 'p']) && !starts_with(
            url@,
            seq!['p', 'r', 'o', 'x', 'y', '.', 'p', 'h', 'p', '?', 'u', 'r', 'l', '='],
        ) ==> r@.skip(8) == url@ && r@.take(8) == seq!['h', 't', 't', 'p', 's', ':', '/', '/'],
{
    proof {
        law_image_address_cases(url@);
    }
    let v = to_chars(url.as_str());
    let http: [char; 4] = ['h', 't', 't', 'p'];
    let proxy: [char; 14] = ['p', 'r', 'o', 'x', 'y', '.', 'p', 'h', 'p', '?', 'u', 'r', 'l', '='];
    assert(http@ == http_prefix());
    assert(proxy@ == proxy_prefix());
    if has_prefix(v.as_slice(), &http) {
        url
    } else if has_prefix(v.as_slice(), &proxy) {
        let rest = vstd::slice::slice_subrange(v.as_slice(), 14, v.len());
        decode_chars(rest)
    } else {
        let mut r = String::new();
        let scheme: [char; 8] = ['h', 't', 't', 'p', 's', ':', '/', '/'];
        assert(scheme@ == https_scheme());
        push_chars(&mut r, &scheme);
        push_chars(&mut r, v.as_slice());
        r
    }
}

} // verus!
