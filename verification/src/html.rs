use vstd::prelude::*;
use crate::encoding::{base64_decoded, base64_encode, base64_standard, law_base64_round_trip};
use crate::strings::{push_char, starts_with};

verus! {

/// What one character of text becomes in HTML: the five characters that
/// HTML gives a meaning to are written as entities, every other character
/// stands for itself.
pub open spec fn escape_char(c: char) -> Seq<char> {
    if c == '&' {
        seq!['&', 'a', 'm', 'p', ';']
    } else if c == '<' {
        seq!['&', 'l', 't', ';']
    } else if c == '>' {
        seq!['&', 'g', 't', ';']
    } else if c == '"' {
        seq!['&', 'q', 'u', 'o', 't', ';']
    } else if c == '\'' {
        seq!['&', '#', '3', '9', ';']
    } else {
        seq![c]
    }
}

/// The HTML text of `s`: each character replaced by `escape_char` of it.
pub open spec fn escaped(s: Seq<char>) -> Seq<char>
    decreases s.len(),
{
    if s.len() == 0 {
        Seq::empty()
    } else {
        escaped(s.drop_last()) + escape_char(s.last())
    }
}

/// Escapes `s` for use as text inside HTML (`&`, `<`, `>`, `"` and `'`
/// become `&amp;`, `&lt;`, `&gt;`, `&quot;` and `&#39;`).
pub fn escape_html(s: &str) -> (r: String)
    ensures
        r@ == escaped(s@),
{
    broadcast use vstd::string::group_string_axioms;

    let mut r = String::new();
    for c in it: s.chars()
        invariant
            it.seq() == s@,
            r@ == escaped(s@.take(it.index() as int)),
    {
        let ghost before = r@;
        assert(s@.take(it.index() + 1).drop_last() == s@.take(it.index() as int));
        if c == '&' {
            push_char(&mut r, '&');
            push_char(&mut r, 'a');
            push_char(&mut r, 'm');
            push_char(&mut r, 'p');
            push_char(&mut r, ';');
        } else if c == '<' {
            push_char(&mut r, '&');
            push_char(&mut r, 'l');
            push_char(&mut r, 't');
            push_char(&mut r, ';');
        } else if c == '>' {
            push_char(&mut r, '&');
            push_char(&mut r, 'g');
            push_char(&mut r, 't');
            push_char(&mut r, ';');
        } else if c == '"' {
            push_char(&mut r, '&');
            push_char(&mut r, 'q');
            push_char(&mut r, 'u');
            push_char(&mut r, 'o');
            push_char(&mut r, 't');
            push_char(&mut r, ';');
        } else if c == '\'' {
            push_char(&mut r, '&');
            push_char(&mut r, '#');
            push_char(&mut r, '3');
            push_char(&mut r, '9');
            push_char(&mut r, ';');
        } else {
            push_char(&mut r, c);
        }
        assert(r@ == before + escape_char(c));
    }
    assert(s@.take(s@.len() as int) == s@);
    r
}

/// One of the characters that HTML gives a meaning to in text or in
/// attribute values: `<`, `>`, `"` or `'`.
pub open spec fn markup_char(c: char) -> bool {
    c == '<' || c == '>' || c == '"' || c == '\''
}

/// Escaping two texts one after the other gives what escaping them joined
/// gives.
pub proof fn law_escape_concat(a: Seq<char>, b: Seq<char>)
    ensures
        escaped(a + b) == escaped(a) + escaped(b),
    decreases b.len(),
{
    if b.len() == 0 {
        assert(a + b == a);
    } else {
        assert((a + b).drop_last() == a + b.drop_last());
        assert((a + b).last() == b.last());
        law_escape_concat(a, b.drop_last());
    }
}

/// Escaped text holds none of `<`, `>`, `"`, `'`: whatever it held, it can
/// open no tag and close no attribute.
pub proof fn law_escaped_has_no_markup(s: Seq<char>)
    ensures
        forall|k: int| 0 <= k < escaped(s).len() ==> !markup_char(#[trigger] escaped(s)[k]),
    decreases s.len(),
{
    if s.len() > 0 {
        law_escaped_has_no_markup(s.drop_last());
        let p = escaped(s.drop_last());
        let e = escape_char(s.last());
        assert forall|k: int| 0 <= k < escaped(s).len() implies !markup_char(
            #[trigger] escaped(s)[k],
        ) by {
            if k < p.len() {
                assert(escaped(s)[k] == p[k]);
            } else {
                assert(escaped(s)[k] == e[k - p.len()]);
            }
        }
    }
}

/// Text that holds neither `&` nor any of `<`, `>`, `"`, `'` is left as it
/// is.
pub proof fn law_escape_keeps_plain_text(s: Seq<char>)
    requires
        forall|k: int| 0 <= k < s.len() ==> #[trigger] s[k] != '&' && !markup_char(s[k]),
    ensures
        escaped(s) == s,
    decreases s.len(),
{
    if s.len() > 0 {
        assert forall|k: int| 0 <= k < s.drop_last().len() implies #[trigger] s.drop_last()[k]
            != '&' && !markup_char(s.drop_last()[k]) by {
            assert(s.drop_last()[k] == s[k]);
        }
        law_escape_keeps_plain_text(s.drop_last());
        assert(s[s.len() - 1] != '&');
        assert(s.drop_last() + seq![s.last()] == s);
    }
}

/// The text that HTML text `s` shows: the entities `&amp;`, `&lt;`, `&gt;`,
/// `&quot;` and `&#39;` read as `&`, `<`, `>`, `"` and `'`; every other
/// character reads as itself.
pub open spec fn html_unescaped(s: Seq<char>) -> Seq<char>
    decreases s.len(),
{
    if s.len() == 0 {
        Seq::empty()
    } else if starts_with(s, seq!['&', 'a', 'm', 'p', ';']) {
        seq!['&'] + html_unescaped(s.skip(5))
    } else if starts_with(s, seq!['&', 'l', 't', ';']) {
        seq!['<'] + html_unescaped(s.skip(4))
    } else if starts_with(s, seq!['&', 'g', 't', ';']) {
        seq!['>'] + html_unescaped(s.skip(4))
    } else if starts_with(s, seq!['&', 'q', 'u', 'o', 't', ';']) {
        seq!['"'] + html_unescaped(s.skip(6))
    } else if starts_with(s, seq!['&', '#', '3', '9', ';']) {
        seq!['\''] + html_unescaped(s.skip(5))
    } else {
        seq![s[0]] + html_unescaped(s.drop_first())
    }
}

proof fn lemma_not_prefix(x: Seq<char>, p: Seq<char>, i: int)
    requires
        0 <= i < p.len(),
        i < x.len(),
        x[i] != p[i],
    ensures
        !starts_with(x, p),
{
    if p.len() <= x.len() {
        assert(x.take(p.len() as int)[i] == x[i]);
    }
}

proof fn lemma_is_prefix(p: Seq<char>, s: Seq<char>)
    ensures
        starts_with(p + s, p),
        (p + s).skip(p.len() as int) == s,
{
    assert((p + s).take(p.len() as int) =~= p);
    assert((p + s).skip(p.len() as int) =~= s);
}

/// Reading back the HTML of one character followed by more text gives that
/// character followed by what the rest reads as.
proof fn lemma_unescape_step(c: char, s: Seq<char>)
    ensures
        html_unescaped(escape_char(c) + s) == seq![c] + html_unescaped(s),
{
    let x = escape_char(c) + s;
    let amp = seq!['&', 'a', 'm', 'p', ';'];
    let lt = seq!['&', 'l', 't', ';'];
    let gt = seq!['&', 'g', 't', ';'];
    let quot = seq!['&', 'q', 'u', 'o', 't', ';'];
    let apos = seq!['&', '#', '3', '9', ';'];
    assert(x[0] == escape_char(c)[0]);
    if c == '&' {
        assert(escape_char(c) == amp);
        lemma_is_prefix(amp, s);
    } else if c == '<' {
        assert(escape_char(c) == lt);
        assert(x[1] == 'l');
        lemma_not_prefix(x, amp, 1);
        lemma_is_prefix(lt, s);
    } else if c == '>' {
        assert(escape_char(c) == gt);
        assert(x[1] == 'g');
        lemma_not_prefix(x, amp, 1);
        lemma_not_prefix(x, lt, 1);
        lemma_is_prefix(gt, s);
    } else if c == '"' {
        assert(escape_char(c) == quot);
        assert(x[1] == 'q');
        lemma_not_prefix(x, amp, 1);
        lemma_not_prefix(x, lt, 1);
        lemma_not_prefix(x, gt, 1);
        lemma_is_prefix(quot, s);
    } else if c == '\'' {
        assert(escape_char(c) == apos);
        assert(x[1] == '#');
        lemma_not_prefix(x, amp, 1);
        lemma_not_prefix(x, lt, 1);
        lemma_not_prefix(x, gt, 1);
        lemma_not_prefix(x, quot, 1);
        lemma_is_prefix(apos, s);
    } else {
        assert(escape_char(c) == seq![c]);
        lemma_not_prefix(x, amp, 0);
        lemma_not_prefix(x, lt, 0);
        lemma_not_prefix(x, gt, 0);
        lemma_not_prefix(x, quot, 0);
        lemma_not_prefix(x, apos, 0);
        assert(x.drop_first() =~= s);
    }
}

/// Escaping loses nothing: the escaped HTML reads back as the text, every
/// character of it (line breaks and all) in its place.
pub proof fn law_unescape_escaped(t: Seq<char>)
    ensures
        html_unescaped(escaped(t)) == t,
    decreases t.len(),
{
    if t.len() > 0 {
        let rest = t.drop_first();
        law_escape_concat(seq![t[0]], rest);
        assert(seq![t[0]] + rest == t);
        assert(seq![t[0]].drop_last() =~= Seq::<char>::empty());
        assert(escaped(Seq::<char>::empty()) == Seq::<char>::empty());
        assert(seq![t[0]].last() == t[0]);
        assert(escaped(seq![t[0]]) == escaped(Seq::<char>::empty()) + escape_char(t[0]));
        assert(escaped(seq![t[0]]) =~= escape_char(t[0]));
        lemma_unescape_step(t[0], escaped(rest));
        law_unescape_escaped(rest);
        assert(seq![t[0]] + rest =~= t);
    }
}

/// The HTML that goes to the clipboard beside the text of a message that
/// carries an image: the escaped text in a block that keeps its line breaks,
/// followed by the image inline as a JPEG `data:` address.
pub open spec fn clipboard_document(text: Seq<char>, image: Seq<u8>) -> Seq<char> {
    "<html><body><div style=\"white-space: pre-wrap; font-family: sans-serif; margin: 0; padding: 0;\">"@
        + escaped(text) + "</div><img src=\"data:image/jpeg;base64,"@ + base64_standard(image)
        + "\"></body></html>"@
}

/// The clipboard HTML shows exactly the text and the image: it is the fixed
/// document head, then a block whose HTML reads back as `text` character for
/// character (line breaks included), then the image tag whose base64 part
/// decodes back to exactly the image bytes, then the fixed document end.
pub proof fn law_clipboard_document_holds_text_and_image(text: Seq<char>, image: Seq<u8>)
    ensures
        exists|m: Seq<char>, e: Seq<char>|
            #![trigger html_unescaped(m), base64_decoded(e)]
            clipboard_document(text, image)
                == "<html><body><div style=\"white-space: pre-wrap; font-family: sans-serif; margin: 0; padding: 0;\">"@
                + m + "</div><img src=\"data:image/jpeg;base64,"@ + e + "\"></body></html>"@
                && html_unescaped(m) == text && base64_decoded(e) == image,
{
    law_unescape_escaped(text);
    law_base64_round_trip(image);
    let m = escaped(text);
    let e = base64_standard(image);
    assert(html_unescaped(m) == text && base64_decoded(e) == image);
}

/// Builds the HTML that is copied together with `text` when a message
/// carries an image with the bytes `image`.
pub fn clipboard_html(text: &str, image: &[u8]) -> (r: String)
    requires
        4 * ((image@.len() + 2) / 3) <= usize::MAX,
    ensures
        r@ == clipboard_document(text@, image@),
        exists|m: Seq<char>, e: Seq<char>|
            #![trigger html_unescaped(m), base64_decoded(e)]
            r@ == "<html><body><div style=\"white-space: pre-wrap; font-family: sans-serif; margin: 0; padding: 0;\">"@
                + m + "</div><img src=\"data:image/jpeg;base64,"@ + e + "\"></body></html>"@
                && html_unescaped(m) == text@ && base64_decoded(e) == image@,
{
    let mut r = String::from_str(
        "<html><body><div style=\"white-space: pre-wrap; font-family: sans-serif; margin: 0; padding: 0;\">",
    );
    let body = escape_html(text);
    r.append(body.as_str());
    r.append("</div><img src=\"data:image/jpeg;base64,");
    let encoded = base64_encode(image);
    r.append(encoded.as_str());
    r.append("\"></body></html>");
    proof {
        law_clipboard_document_holds_text_and_image(text@, image@);
    }
    r
}

} // verus!
