use vstd::prelude::*;
use crate::strings::{has_prefix, push_char, push_chars, starts_with, to_chars};

verus! {

/// The character of the decimal digit `d` (`d < 10`).
pub open spec fn digit_char(d: nat) -> char {
    ('0' as int + d) as char
}

/// The decimal digits of `n`, without leading zeros (`0` for zero).
pub open spec fn decimal(n: nat) -> Seq<char>
    decreases n,
{
    if n < 10 {
        seq![digit_char(n)]
    } else {
        decimal(n / 10).push(digit_char(n % 10))
    }
}

/// The text with which the label of every highlight popup window starts.
pub open spec fn popup_prefix() -> Seq<char> {
    seq!['h', 'i', 'g', 'h', 'l', 'i', 'g', 'h', 't', '-', 'p', 'o', 'p', 'u', 'p', '-']
}

/// The label of the popup window opened as number `n`.
pub open spec fn popup_label_of(n: nat) -> Seq<char> {
    popup_prefix() + decimal(n)
}

/// How many of `labels` are labels of highlight popup windows.
pub open spec fn popup_count(labels: Seq<String>) -> nat
    decreases labels.len(),
{
    if labels.len() == 0 {
        0
    } else {
        popup_count(labels.drop_last()) + if starts_with(labels.last()@, popup_prefix()) {
            1nat
        } else {
            0nat
        }
    }
}

proof fn lemma_decimal_len(n: nat)
    ensures
        decimal(n).len() >= 1,
        decimal(n).len() == 1 <==> n < 10,
    decreases n,
{
    if n >= 10 {
        lemma_decimal_len(n / 10);
    }
}

/// Distinct numbers have distinct decimal digits.
pub proof fn lemma_decimal_injective(n: nat, m: nat)
    requires
        decimal(n) == decimal(m),
    ensures
        n == m,
    decreases n,
{
    lemma_decimal_len(n);
    lemma_decimal_len(m);
    if n >= 10 && m >= 10 {
        let a = decimal(n);
        assert(a.drop_last() == decimal(n / 10));
        assert(decimal(m).drop_last() == decimal(m / 10));
        assert(a.last() == digit_char(n % 10));
        assert(decimal(m).last() == digit_char(m % 10));
        assert(n % 10 == m % 10);
        lemma_decimal_injective(n / 10, m / 10);
    } else if n < 10 && m < 10 {
        assert(decimal(n)[0] == digit_char(n));
        assert(decimal(m)[0] == digit_char(m));
    }
}

/// The number that a text of decimal digits spells.
pub open spec fn digits_value(s: Seq<char>) -> int
    decreases s.len(),
{
    if s.len() == 0 {
        0
    } else {
        digits_value(s.drop_last()) * 10 + (s.last() as int - '0' as int)
    }
}

/// `decimal(n)` is `n` written in decimal: it is made of the digits `0`-`9`,
/// starts with `0` only where it is `0` itself, and spells `n`.
pub proof fn law_decimal_reads_back(n: nat)
    ensures
        forall|k: int| 0 <= k < decimal(n).len() ==> '0' <= #[trigger] decimal(n)[k] <= '9',
        decimal(n)[0] == '0' ==> n == 0,
        digits_value(decimal(n)) == n,
    decreases n,
{
    lemma_decimal_len(n);
    if n >= 10 {
        law_decimal_reads_back(n / 10);
        lemma_decimal_len(n / 10);
        let p = decimal(n / 10);
        let d = decimal(n);
        assert(d == p.push(digit_char(n % 10)));
        assert(d.drop_last() == p);
        assert forall|k: int| 0 <= k < d.len() implies '0' <= #[trigger] d[k] <= '9' by {
            if k < p.len() {
                assert(d[k] == p[k]);
            }
        }
        assert(d[0] == p[0]);
        assert(d.last() == digit_char(n % 10));
        assert(digit_char(n % 10) as int == '0' as int + n % 10);
        assert(n == (n / 10) * 10 + n % 10);
    } else {
        let d = decimal(n);
        assert(d.drop_last() =~= Seq::<char>::empty());
        assert(digits_value(Seq::<char>::empty()) == 0);
        assert(d.last() == digit_char(n));
        assert(digit_char(n) as int == '0' as int + n);
    }
}

/// Appends the decimal digits of `n` to `r`.
fn push_decimal(r: &mut String, n: u32)
    ensures
        final(r)@ == old(r)@ + decimal(n as nat),
    decreases n,
{
    if n >= 10 {
        push_decimal(r, n / 10);
    }
    let d = (n % 10) as u8;
    let c = (48u8 + d) as char;
    assert(c == digit_char((n % 10) as nat));
    push_char(r, c);
}

/// The label of the popup window that is opened as number `n`:
/// `highlight-popup-<n>`.
pub fn popup_label(n: u32) -> (r: String)
    ensures
        r@ == popup_label_of(n as nat),
{
    let mut r = String::new();
    let prefix: [char; 16] = ['h', 'i', 'g', 'h', 'l', 'i', 'g', 'h', 't', '-', 'p', 'o', 'p', 'u', 'p', '-'];
    assert(prefix@ == popup_prefix());
    push_chars(&mut r, &prefix);
    push_decimal(&mut r, n);
    r
}

/// Whether `label` is the label of a highlight popup window.
pub fn is_popup_label(label: &str) -> (r: bool)
    ensures
        r == starts_with(label@, popup_prefix()),
{
    let v = to_chars(label);
    let prefix: [char; 16] = ['h', 'i', 'g', 'h', 'l', 'i', 'g', 'h', 't', '-', 'p', 'o', 'p', 'u', 'p', '-'];
    assert(prefix@ == popup_prefix());
    has_prefix(v.as_slice(), &prefix)
}

/// How many of the open windows, given by their labels, are highlight
/// popups (the count as a `u32`, which wraps past `u32::MAX`).
pub fn get_existing_popup_count(labels: &[String]) -> (r: u32)
    ensures
        r == popup_count(labels@) as u32,
{
    let mut count: usize = 0;
    let mut i: usize = 0;
    while i < labels.len()
        invariant
            i <= labels@.len(),
            count == popup_count(labels@.take(i as int)),
            count <= i,
        decreases labels.len() - i,
    {
        assert(labels@.take(i + 1).drop_last() == labels@.take(i as int));
        if is_popup_label(labels[i].as_str()) {
            count = count + 1;
        }
        i = i + 1;
    }
    assert(labels@.take(labels@.len() as int) == labels@);
    count as u32
}

/// The address of the page that a popup window with the label `label` shows:
/// `popup.html#<label>`.
pub fn popup_page_url(label: &str) -> (r: String)
    ensures
        r@ == "popup.html#"@ + label@,
{
    let mut r = String::from_str("popup.html#");
    r.append(label);
    r
}

/// The label of the window that shows the context of the group `group_id`:
/// `context-<group_id>`.
pub fn context_window_label(group_id: &str) -> (r: String)
    ensures
        r@ == "context-"@ + group_id@,
{
    let mut r = String::from_str("context-");
    r.append(group_id);
    r
}

/// Every label that `popup_label` makes is one that `is_popup_label`
/// recognises.
pub proof fn law_popup_labels_are_recognised(n: nat)
    ensures
        starts_with(popup_label_of(n), popup_prefix()),
{
    assert(popup_label_of(n).take(popup_prefix().len() as int) == popup_prefix());
}

/// Popups opened under distinct numbers get distinct labels.
pub proof fn law_popup_labels_are_distinct(n: nat, m: nat)
    requires
        n != m,
    ensures
        popup_label_of(n) != popup_label_of(m),
{
    if popup_label_of(n) == popup_label_of(m) {
        assert(popup_label_of(n).skip(16) == decimal(n));
        assert(popup_label_of(m).skip(16) == decimal(m));
        lemma_decimal_injective(n, m);
    }
}

/// Opening one more popup window adds one to the count of popup windows.
pub proof fn law_new_popup_is_counted(labels: Seq<String>, label: String, n: nat)
    requires
        label@ == popup_label_of(n),
    ensures
        popup_count(labels.push(label)) == popup_count(labels) + 1,
{
    law_popup_labels_are_recognised(n);
    assert(labels.push(label).drop_last() == labels);
}

} // verus!
