use vstd::prelude::*;
use crate::encoding::base64_decoded;
use crate::html::{clipboard_document, clipboard_html, html_unescaped};
use crate::text::{clean_text_for_copy, cleaned};

verus! {

/// What a copy puts on the clipboard: the plain text, and beside it an HTML
/// form where the message carries an image.
pub struct ClipboardPayload {
    pub text: String,
    pub html: Option<String>,
}

/// What copying the message text `text`, with the bytes `image` of its
/// image where it has one, puts on the clipboard: the cleaned text, and
/// where there is an image, the HTML that shows that same cleaned text
/// above the image: the text that the HTML shows is the plain text put
/// beside it, character for character.
pub fn clipboard_payload(text: String, image: Option<&[u8]>) -> (r: ClipboardPayload)
    requires
        image matches Some(b) ==> 4 * ((b@.len() + 2) / 3) <= usize::MAX,
    ensures
        r.text@ == cleaned(text@),
        match image {
            Some(b) => r.html matches Some(h) && h@ == clipboard_document(cleaned(text@), b@),
            None => r.html is None,
        },
        r.html matches Some(h) ==> image matches Some(b) && exists|m: Seq<char>, e: Seq<char>|
            #![trigger html_unescaped(m), base64_decoded(e)]
            h@ == "<html><body><div style=\"white-space: pre-wrap; font-family: sans-serif; margin: 0; padding: 0;\">"@
                + m + "</div><img src=\"data:image/jpeg;base64,"@ + e + "\"></body></html>"@
                && html_unescaped(m) == r.text@ && base64_decoded(e) == b@,
{
    let text = clean_text_for_copy(text);
    let html = match image {
        Some(b) => Some(clipboard_html(text.as_str(), b)),
        None => None,
    };
    ClipboardPayload { text, html }
}

} // verus!
