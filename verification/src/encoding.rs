use vstd::prelude::*;
use base64::Engine;

verus! {

/// The character that stands for the six bits `i` in the standard base64
/// alphabet of RFC 4648: `A`-`Z`, `a`-`z`, `0`-`9`, `+`, `/`.
pub open spec fn base64_symbol(i: int) -> char {
    if i < 26 {
        ('A' as int + i) as char
    } else if i < 52 {
        ('a' as int + (i - 26)) as char
    } else if i < 62 {
        ('0' as int + (i - 52)) as char
    } else if i == 62 {
        '+'
    } else {
        '/'
    }
}

/// The standard base64 encoding of RFC 4648, with `=` padding: every three
/// bytes become four characters, and a last group of one or two bytes
/// becomes two or three characters followed by `=` to make four.
pub open spec fn base64_standard(b: Seq<u8>) -> Seq<char>
    decreases b.len(),
{
    let x = if b.len() > 0 { b[0] as int } else { 0 };
    let y = if b.len() > 1 { b[1] as int } else { 0 };
    let z = if b.len() > 2 { b[2] as int } else { 0 };
    if b.len() == 0 {
        Seq::empty()
    } else if b.len() == 1 {
        seq![base64_symbol(x / 4), base64_symbol((x % 4) * 16), '=', '=']
    } else if b.len() == 2 {
        seq![
            base64_symbol(x / 4),
            base64_symbol((x % 4) * 16 + y / 16),
            base64_symbol((y % 16) * 4),
            '=',
        ]
    } else {
        seq![
            base64_symbol(x / 4),
            base64_symbol((x % 4) * 16 + y / 16),
            base64_symbol((y % 16) * 4 + z / 64),
            base64_symbol(z % 64),
        ] + base64_standard(b.skip(3))
    }
}

/// The six bits that the base64 character `c` stands for (the inverse of
/// `base64_symbol` on the alphabet).
pub open spec fn base64_value(c: char) -> int {
    if 'A' <= c && c <= 'Z' {
        c as int - 'A' as int
    } else if 'a' <= c && c <= 'z' {
        c as int - 'a' as int + 26
    } else if '0' <= c && c <= '9' {
        c as int - '0' as int + 52
    } else if c == '+' {
        62
    } else {
        63
    }
}

/// The bytes that a base64 text `s` stands for, read four characters at a
/// time: each group gives three bytes, or one or two where it ends with `=`
/// padding.
pub open spec fn base64_decoded(s: Seq<char>) -> Seq<u8>
    decreases s.len(),
{
    if s.len() < 4 {
        Seq::empty()
    } else {
        let a = base64_value(s[0]);
        let b = base64_value(s[1]);
        let c = base64_value(s[2]);
        let d = base64_value(s[3]);
        let b0 = (a * 4 + b / 16) as u8;
        let b1 = ((b % 16) * 16 + c / 4) as u8;
        let b2 = ((c % 4) * 64 + d) as u8;
        if s[2] == '=' {
            seq![b0]
        } else if s[3] == '=' {
            seq![b0, b1]
        } else {
            seq![b0, b1, b2] + base64_decoded(s.skip(4))
        }
    }
}

proof fn lemma_base64_symbol(i: int)
    requires
        0 <= i < 64,
    ensures
        base64_value(base64_symbol(i)) == i,
        base64_symbol(i) != '=',
{
}

/// `base64_standard` loses nothing: its text, four characters for every
/// three bytes or part of three, decodes back to exactly the bytes.
pub proof fn law_base64_round_trip(b: Seq<u8>)
    ensures
        base64_decoded(base64_standard(b)) == b,
        base64_standard(b).len() == 4 * ((b.len() + 2) / 3),
    decreases b.len(),
{
    if b.len() > 0 {
        let x = b[0] as int;
        let y = if b.len() > 1 { b[1] as int } else { 0 };
        let z = if b.len() > 2 { b[2] as int } else { 0 };
        let s0 = x / 4;
        let s1 = (x % 4) * 16 + y / 16;
        let s2 = (y % 16) * 4 + z / 64;
        let s3 = z % 64;
        lemma_base64_symbol(s0);
        lemma_base64_symbol(s1);
        lemma_base64_symbol(s2);
        lemma_base64_symbol(s3);
        lemma_base64_symbol((x % 4) * 16);
        lemma_base64_symbol((y % 16) * 4);
        assert(s0 * 4 + s1 / 16 == x);
        assert((s1 % 16) * 16 + s2 / 4 == y);
        assert((s2 % 4) * 64 + s3 == z);
        let e = base64_standard(b);
        if b.len() == 1 {
            assert(((x % 4) * 16) / 16 == x % 4);
            assert(e.len() == 4);
            assert(base64_decoded(e) =~= b);
        } else if b.len() == 2 {
            assert(e.len() == 4);
            assert(base64_decoded(e) =~= b);
        } else {
            law_base64_round_trip(b.skip(3));
            let head = seq![base64_symbol(s0), base64_symbol(s1), base64_symbol(s2), base64_symbol(s3)];
            assert(e == head + base64_standard(b.skip(3)));
            assert(e.skip(4) =~= base64_standard(b.skip(3)));
            assert(b =~= seq![b[0], b[1], b[2]] + b.skip(3));
            assert(base64_decoded(e) =~= b);
        }
    }
}

/// `base64::engine::general_purpose::STANDARD.encode`: the standard base64
/// encoding of `bytes`, with padding. It panics only where the length of the
/// encoding does not fit in `usize`, which `requires` leaves out.
#[verifier::external_body]
pub(crate) fn base64_encode(bytes: &[u8]) -> (r: String)
    requires
        4 * ((bytes@.len() + 2) / 3) <= usize::MAX,
    ensures
        r@ == base64_standard(bytes@),
{
    base64::engine::general_purpose::STANDARD.encode(bytes)
}

/// The content type that an image is given where the server names none.
pub open spec fn default_image_type() -> Seq<char> {
    "image/jpeg"@
}

/// A `data:` address that holds an image of type `content_type` (or
/// `image/jpeg` where there is none) with the bytes `bytes`.
pub open spec fn data_address(content_type: Option<Seq<char>>, bytes: Seq<u8>) -> Seq<char> {
    let t = match content_type {
        Some(t) => t,
        None => default_image_type(),
    };
    "data:"@ + t + ";base64,"@ + base64_standard(bytes)
}

/// The head of a `data:` address for an image of type `content_type`, or of
/// type `image/jpeg` where there is none: `data:<type>;base64,`.
pub open spec fn data_head(content_type: Option<Seq<char>>) -> Seq<char> {
    match content_type {
        Some(t) => "data:"@ + t + ";base64,"@,
        None => "data:image/jpeg;base64,"@,
    }
}

/// A `data:` address carries every byte of the image, whatever its size:
/// after the head `data:<type>;base64,` comes a base64 text of
/// 4 * ceil(n / 3) characters for n bytes that decodes back to exactly
/// those bytes.
pub proof fn law_data_address_holds_every_byte(content_type: Option<Seq<char>>, bytes: Seq<u8>)
    ensures
        data_address(content_type, bytes).take(data_head(content_type).len() as int) == data_head(
            content_type,
        ),
        base64_decoded(data_address(content_type, bytes).skip(data_head(content_type).len() as int))
            == bytes,
        data_address(content_type, bytes).len() == data_head(content_type).len() + 4 * ((
        bytes.len() + 2) / 3),
{
    let d = data_address(content_type, bytes);
    let h = data_head(content_type);
    let e = base64_standard(bytes);
    match content_type {
        Some(t) => {},
        None => {
            assert("data:"@ + default_image_type() + ";base64,"@ == "data:image/jpeg;base64,"@) by {
                reveal_strlit("data:");
                reveal_strlit("image/jpeg");
                reveal_strlit(";base64,");
                reveal_strlit("data:image/jpeg;base64,");
                assert("data:"@ + "image/jpeg"@ + ";base64,"@ =~= "data:image/jpeg;base64,"@);
            }
        },
    }
    assert(d == h + e);
    assert(d.take(h.len() as int) =~= h);
    assert(d.skip(h.len() as int) =~= e);
    law_base64_round_trip(bytes);
}

/// Builds the `data:` address under which a fetched image is handed to the
/// page: `data:<type>;base64,<the bytes in base64>`, where the type is
/// `content_type` or, where the server sent none, `image/jpeg`.
pub fn image_data_url(content_type: Option<&str>, bytes: &[u8]) -> (r: String)
    requires
        4 * ((bytes@.len() + 2) / 3) <= usize::MAX,
    ensures
        r@ == data_address(
            match content_type {
                Some(t) => Some(t@),
                None => None,
            },
            bytes@,
        ),
        ({
            let h = data_head(
                match content_type {
                    Some(t) => Some(t@),
                    None => None,
                },
            );
            &&& r@.take(h.len() as int) == h
            &&& base64_decoded(r@.skip(h.len() as int)) == bytes@
            &&& r@.len() == h.len() + 4 * ((bytes@.len() + 2) / 3)
        }),
{
    let mut r = String::from_str("data:");
    match content_type {
        Some(t) => r.append(t),
        None => r.append("image/jpeg"),
    }
    r.append(";base64,");
    let encoded = base64_encode(bytes);
    r.append(encoded.as_str());
    proof {
        law_data_address_holds_every_byte(
            match content_type {
                Some(t) => Some(t@),
                None => None,
            },
            bytes@,
        );
    }
    r
}

} // verus!
