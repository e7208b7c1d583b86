use vstd::prelude::*;
use crate::strings::{is_white_space, push_char, white_space};

verus! {

/// The invisible characters that are dropped from copied text: zero width
/// space, zero width non-joiner, zero width joiner and the byte order mark.
pub open spec fn zero_width(c: char) -> bool {
    c == '\u{200B}' || c == '\u{200C}' || c == '\u{200D}' || c == '\u{FEFF}'
}

/// `s` with every zero width character taken out.
pub open spec fn strip_zero_width(s: Seq<char>) -> Seq<char>
    decreases s.len(),
{
    if s.len() == 0 {
        Seq::empty()
    } else if zero_width(s.last()) {
        strip_zero_width(s.drop_last())
    } else {
        strip_zero_width(s.drop_last()).push(s.last())
    }
}

/// `s` without the white space that it starts with.
pub open spec fn trim_leading(s: Seq<char>) -> Seq<char>
    decreases s.len(),
{
    if s.len() > 0 && white_space(s[0]) {
        trim_leading(s.drop_first())
    } else {
        s
    }
}

/// `s` without the white space that it ends with.
pub open spec fn trim_trailing(s: Seq<char>) -> Seq<char>
    decreases s.len(),
{
    if s.len() > 0 && white_space(s.last()) {
        trim_trailing(s.drop_last())
    } else {
        s
    }
}

/// Text as it goes to the clipboard: zero width characters dropped, then the
/// white space at its start and at its end taken off.
pub open spec fn cleaned(s: Seq<char>) -> Seq<char> {
    trim_trailing(trim_leading(strip_zero_width(s)))
}

/// Nothing in `s` is a zero width character.
pub open spec fn free_of_zero_width(s: Seq<char>) -> bool {
    forall|k: int| 0 <= k < s.len() ==> !zero_width(#[trigger] s[k])
}

/// `s` neither starts nor ends with white space.
pub open spec fn tidy_ends(s: Seq<char>) -> bool {
    s.len() > 0 ==> !white_space(s[0]) && !white_space(s.last())
}

proof fn lemma_trim_leading_at(s: Seq<char>, i: int)
    requires
        0 <= i <= s.len(),
        forall|k: int| 0 <= k < i ==> white_space(#[trigger] s[k]),
        i == s.len() || !white_space(s[i]),
    ensures
        trim_leading(s) == s.skip(i),
    decreases i,
{
    if i == 0 {
        assert(s.skip(0) == s);
    } else {
        let t = s.drop_first();
        assert forall|k: int| 0 <= k < i - 1 implies white_space(#[trigger] t[k]) by {
            assert(t[k] == s[k + 1]);
        }
        if i - 1 < t.len() {
            assert(t[i - 1] == s[i]);
        }
        lemma_trim_leading_at(t, i - 1);
        assert(t.skip(i - 1) == s.skip(i));
    }
}

proof fn lemma_trim_trailing_at(s: Seq<char>, j: int)
    requires
        0 <= j <= s.len(),
        forall|k: int| j <= k < s.len() ==> white_space(#[trigger] s[k]),
        j == 0 || !white_space(s[j - 1]),
    ensures
        trim_trailing(s) == s.take(j),
    decreases s.len() - j,
{
    if j == s.len() {
        assert(s.take(j) == s);
    } else {
        let t = s.drop_last();
        assert forall|k: int| j <= k < t.len() implies white_space(#[trigger] t[k]) by {
            assert(t[k] == s[k]);
        }
        if j > 0 {
            assert(t[j - 1] == s[j - 1]);
        }
        lemma_trim_trailing_at(t, j);
        assert(t.take(j) == s.take(j));
    }
}

proof fn lemma_strip_free(s: Seq<char>)
    ensures
        free_of_zero_width(strip_zero_width(s)),
        free_of_zero_width(s) ==> strip_zero_width(s) == s,
    decreases s.len(),
{
    if s.len() > 0 {
        lemma_strip_free(s.drop_last());
        let p = strip_zero_width(s.drop_last());
        if !zero_width(s.last()) {
            assert forall|k: int| 0 <= k < p.push(s.last()).len() implies !zero_width(
                #[trigger] p.push(s.last())[k],
            ) by {
                if k < p.len() {
                    assert(p.push(s.last())[k] == p[k]);
                }
            }
        }
        if free_of_zero_width(s) {
            assert(free_of_zero_width(s.drop_last())) by {
                assert forall|k: int| 0 <= k < s.drop_last().len() implies !zero_width(
                    #[trigger] s.drop_last()[k],
                ) by {
                    assert(s.drop_last()[k] == s[k]);
                }
            }
            assert(!zero_width(s[s.len() - 1]));
            assert(s.drop_last().push(s.last()) == s);
        }
    }
}

proof fn lemma_trim_leading_shape(s: Seq<char>)
    ensures
        exists|i: int| 0 <= i <= s.len() && #[trigger] s.skip(i) == trim_leading(s),
        trim_leading(s).len() > 0 ==> !white_space(trim_leading(s)[0]),
        s.len() == 0 || !white_space(s[0]) ==> trim_leading(s) == s,
    decreases s.len(),
{
    if s.len() > 0 && white_space(s[0]) {
        lemma_trim_leading_shape(s.drop_first());
        let i = choose|i: int|
            0 <= i <= s.drop_first().len() && #[trigger] s.drop_first().skip(i) == trim_leading(
                s.drop_first(),
            );
        assert(s.skip(i + 1) == s.drop_first().skip(i));
    } else {
        assert(s.skip(0) == s);
    }
}

proof fn lemma_trim_trailing_shape(s: Seq<char>)
    ensures
        exists|j: int| 0 <= j <= s.len() && #[trigger] s.take(j) == trim_trailing(s),
        trim_trailing(s).len() > 0 ==> !white_space(trim_trailing(s).last()),
        s.len() == 0 || !white_space(s.last()) ==> trim_trailing(s) == s,
    decreases s.len(),
{
    if s.len() > 0 && white_space(s.last()) {
        lemma_trim_trailing_shape(s.drop_last());
        let j = choose|j: int|
            0 <= j <= s.drop_last().len() && #[trigger] s.drop_last().take(j) == trim_trailing(
                s.drop_last(),
            );
        assert(s.take(j) == s.drop_last().take(j));
    } else {
        assert(s.take(s.len() as int) == s);
    }
}

/// What `cleaned` gives back is free of zero width characters and neither
/// starts nor ends with white space.
pub proof fn lemma_cleaned_shape(s: Seq<char>)
    ensures
        free_of_zero_width(cleaned(s)),
        tidy_ends(cleaned(s)),
{
    let t = strip_zero_width(s);
    let u = trim_leading(t);
    let r = trim_trailing(u);
    lemma_strip_free(s);
    lemma_trim_leading_shape(t);
    lemma_trim_trailing_shape(u);
    let i = choose|i: int| 0 <= i <= t.len() && #[trigger] t.skip(i) == u;
    let j = choose|j: int| 0 <= j <= u.len() && #[trigger] u.take(j) == r;
    assert forall|k: int| 0 <= k < r.len() implies !zero_width(#[trigger] r[k]) by {
        assert(r[k] == u[k]);
        assert(u[k] == t[k + i]);
    }
    if r.len() > 0 {
        assert(r[0] == u[0]);
    }
}

/// Cleaning text that was cleaned already changes nothing.
pub proof fn law_clean_is_idempotent(s: Seq<char>)
    ensures
        cleaned(cleaned(s)) == cleaned(s),
{
    let r = cleaned(s);
    lemma_cleaned_shape(s);
    lemma_strip_free(r);
    lemma_trim_leading_shape(r);
    lemma_trim_trailing_shape(r);
}

/// Text free of zero width characters that neither starts nor ends with
/// white space is copied as it is.
pub proof fn law_clean_keeps_tidy_text(s: Seq<char>)
    requires
        free_of_zero_width(s),
        tidy_ends(s),
    ensures
        cleaned(s) == s,
{
    lemma_strip_free(s);
    lemma_trim_leading_shape(s);
    lemma_trim_trailing_shape(s);
}

/// Prepares text for the clipboard: drops the zero width characters
/// U+200B, U+200C, U+200D and U+FEFF, then takes off the white space at the
/// start and at the end of what is left.
pub fn clean_text_for_copy(text: String) -> (r: String)
    ensures
        r@ == cleaned(text@),
        free_of_zero_width(r@),
        tidy_ends(r@),
{
    broadcast use vstd::string::group_string_axioms;

    let s = text.as_str();
    let mut kept: Vec<char> = Vec::new();
    for c in it: s.chars()
        invariant
            it.seq() == s@,
            kept@ == strip_zero_width(s@.take(it.index() as int)),
    {
        assert(s@.take(it.index() + 1).drop_last() == s@.take(it.index() as int));
        if !(c == '\u{200B}' || c == '\u{200C}' || c == '\u{200D}' || c == '\u{FEFF}') {
            kept.push(c);
        }
    }
    assert(s@.take(s@.len() as int) == s@);

    let n = kept.len();
    let mut start: usize = 0;
    while start < n && is_white_space(kept[start])
        invariant
            n == kept@.len(),
            start <= n,
            forall|k: int| 0 <= k < start ==> white_space(#[trigger] kept@[k]),
        decreases n - start,
    {
        start = start + 1;
    }
    let mut end: usize = n;
    while end > start && is_white_space(kept[end - 1])
        invariant
            n == kept@.len(),
            start <= end <= n,
            forall|k: int| end <= k < n ==> white_space(#[trigger] kept@[k]),
        decreases end - start,
    {
        end = end - 1;
    }

    let mut r = String::new();
    let mut k: usize = start;
    while k < end
        invariant
            start <= k <= end <= n,
            n == kept@.len(),
            r@ == kept@.subrange(start as int, k as int),
        decreases end - k,
    {
        push_char(&mut r, kept[k]);
        assert(kept@.subrange(start as int, k + 1) == kept@.subrange(start as int, k as int).push(
            kept@[k as int],
        ));
        k = k + 1;
    }

    proof {
        let t = kept@;
        lemma_trim_leading_at(t, start as int);
        let u = t.skip(start as int);
        let j = end - start;
        assert forall|q: int| j <= q < u.len() implies white_space(#[trigger] u[q]) by {
            assert(u[q] == t[q + start]);
        }
        if j > 0 {
            assert(u[j - 1] == t[end - 1]);
        }
        lemma_trim_trailing_at(u, j);
        assert(u.take(j) == t.subrange(start as int, end as int));
        lemma_cleaned_shape(text@);
    }
    r
}

} // verus!
