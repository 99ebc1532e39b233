//! Text building blocks: appending, escaping, replacing, searching and
//! number formatting, each over the character sequence of a string.

use vstd::prelude::*;
use vstd::string::*;

verus! {

// ---------------------------------------------------------------------------
// Appending
// ---------------------------------------------------------------------------

/// `String::push` appends the given character to the end of the string.
pub assume_specification[ String::push ](s: &mut String, ch: char)
    ensures
        final(s)@ == old(s)@.push(ch),
;

/// `String::push_str` appends the given string slice to the end of the string.
pub assume_specification[ String::push_str ](s: &mut String, string: &str)
    ensures
        final(s)@ == old(s)@ + string@,
;

// ---------------------------------------------------------------------------
// UTF-8
// ---------------------------------------------------------------------------

/// What `std::str::Utf8Error` says of `bytes`, which are not valid UTF-8.
pub uninterp spec fn utf8_error_text(bytes: Seq<u8>) -> Seq<char>;

/// `std::str::from_utf8` accepts exactly the valid UTF-8 byte sequences and
/// hands back the text they encode. The words of the error are a function of
/// the bytes alone; nothing more is claimed of them.
#[verifier::external_body]
pub(crate) fn decode_text(bytes: &[u8]) -> (res: Result<String, String>)
    ensures
        vstd::utf8::valid_utf8(bytes@) <==> res is Ok,
        res matches Ok(text) ==> text@ == vstd::utf8::decode_utf8(bytes@),
        res matches Err(words) ==> words@ == utf8_error_text(bytes@),
{
    match std::str::from_utf8(bytes) {
        Ok(text) => Ok(text.to_owned()),
        Err(error) => Err(error.to_string()),
    }
}

// ---------------------------------------------------------------------------
// Comparing and searching
// ---------------------------------------------------------------------------

/// Whether two strings hold the same characters.
pub fn same_text(a: &str, b: &str) -> (res: bool)
    ensures
        res == (a@ == b@),
{
    let x = a.as_bytes();
    let y = b.as_bytes();
    proof {
        vstd::utf8::encode_utf8_decode_utf8(a@);
        vstd::utf8::encode_utf8_decode_utf8(b@);
    }
    if x.len() != y.len() {
        return false;
    }
    let mut i: usize = 0;
    while i < x.len()
        invariant
            i <= x.len(),
            x.len() == y.len(),
            x@ == vstd::utf8::encode_utf8(a@),
            y@ == vstd::utf8::encode_utf8(b@),
            forall|k: int| 0 <= k < i ==> x@[k] == y@[k],
        decreases x.len() - i,
    {
        if x[i] != y[i] {
            return false;
        }
        i += 1;
    }
    proof {
        assert(x@ =~= y@);
    }
    true
}

/// The characters of a string, one by one.
pub fn chars_of(text: &str) -> (res: Vec<char>)
    ensures
        res@ == text@,
{
    let mut res: Vec<char> = Vec::new();
    for c in it: text.chars()
        invariant
            it.seq() == text@,
            res@ == text@.take(it.index()),
    {
        proof {
            assert(text@.take(it.index() + 1) == text@.take(it.index()).push(c));
        }
        res.push(c);
    }
    proof {
        assert(text@.take(text@.len() as int) == text@);
    }
    res
}

/// `needle` stands in `hay` at position `at`.
pub open spec fn found_at(hay: Seq<char>, needle: Seq<char>, at: int) -> bool {
    &&& 0 <= at
    &&& at + needle.len() <= hay.len()
    &&& hay.subrange(at, at + needle.len()) == needle
}

/// `needle` stands somewhere in `hay`.
pub open spec fn has_text(hay: Seq<char>, needle: Seq<char>) -> bool {
    exists|at: int| found_at(hay, needle, at)
}

/// `text` ends in `suffix`.
pub open spec fn has_suffix(text: Seq<char>, suffix: Seq<char>) -> bool {
    found_at(text, suffix, text.len() - suffix.len())
}

fn matches_at(hay: &[char], needle: &[char], at: usize) -> (res: bool)
    requires
        at + needle@.len() <= hay@.len(),
    ensures
        res == found_at(hay@, needle@, at as int),
{
    let total = hay.len();
    let mut i: usize = 0;
    while i < needle.len()
        invariant
            i <= needle@.len(),
            total == hay@.len(),
            at + needle@.len() <= total,
            forall|k: int| 0 <= k < i ==> hay@[at + k] == needle@[k],
        decreases needle.len() - i,
    {
        if hay[at + i] != needle[i] {
            proof {
                let part = hay@.subrange(at as int, at + needle@.len());
                assert(part[i as int] == hay@[at + i]);
            }
            return false;
        }
        i += 1;
    }
    proof {
        assert(hay@.subrange(at as int, at + needle@.len()) =~= needle@);
    }
    true
}

/// Whether `needle` occurs in `hay`.
pub fn contains_text(hay: &str, needle: &str) -> (res: bool)
    ensures
        res == has_text(hay@, needle@),
{
    let h = chars_of(hay);
    let n = chars_of(needle);
    if n.len() > h.len() {
        return false;
    }
    let last = h.len() - n.len();
    let mut at: usize = 0;
    while at <= last
        invariant
            h@ == hay@,
            n@ == needle@,
            n@.len() <= h@.len(),
            last == h@.len() - n@.len(),
            at <= last + 1,
            forall|k: int| 0 <= k < at ==> !found_at(h@, n@, k),
        decreases last + 1 - at,
    {
        if matches_at(h.as_slice(), n.as_slice(), at) {
            return true;
        }
        if at == last {
            proof {
                assert forall|k: int| !found_at(h@, n@, k) by {
                    if 0 <= k <= last {
                    }
                }
            }
            return false;
        }
        at += 1;
    }
    false
}

/// Whether `text` ends in `suffix`.
pub fn ends_with_text(text: &str, suffix: &str) -> (res: bool)
    ensures
        res == has_suffix(text@, suffix@),
{
    let t = chars_of(text);
    let s = chars_of(suffix);
    if s.len() > t.len() {
        return false;
    }
    matches_at(t.as_slice(), s.as_slice(), t.len() - s.len())
}

// ---------------------------------------------------------------------------
// HTML escaping
// ---------------------------------------------------------------------------

/// A character as it stands in HTML content.
pub open spec fn html_char(c: char) -> Seq<char> {
    if c == '&' {
        "&amp;"@
    } else if c == '<' {
        "&lt;"@
    } else if c == '>' {
        "&gt;"@
    } else {
        seq![c]
    }
}

/// A character as it stands in a double-quoted HTML attribute value.
pub open spec fn attr_char(c: char) -> Seq<char> {
    if c == '"' {
        "&quot;"@
    } else {
        html_char(c)
    }
}

/// `text` escaped for HTML content, character by character.
pub open spec fn escaped_html(text: Seq<char>) -> Seq<char>
    decreases text.len(),
{
    if text.len() == 0 {
        Seq::empty()
    } else {
        escaped_html(text.drop_last()) + html_char(text.last())
    }
}

/// `text` escaped for a double-quoted attribute value, character by character.
pub open spec fn escaped_attr(text: Seq<char>) -> Seq<char>
    decreases text.len(),
{
    if text.len() == 0 {
        Seq::empty()
    } else {
        escaped_attr(text.drop_last()) + attr_char(text.last())
    }
}

/// Escape text for HTML content: `& < >`.
pub fn push_escaped_html(out: &mut String, text: &str)
    ensures
        final(out)@ == old(out)@ + escaped_html(text@),
{
    let ghost start = out@;
    for c in it: text.chars()
        invariant
            it.seq() == text@,
            out@ == start + escaped_html(text@.take(it.index())),
    {
        proof {
            assert(text@.take(it.index() + 1).drop_last() == text@.take(it.index()));
        }
        if c == '&' {
            out.push_str("&amp;");
        } else if c == '<' {
            out.push_str("&lt;");
        } else if c == '>' {
            out.push_str("&gt;");
        } else {
            out.push(c);
        }
    }
    proof {
        assert(text@.take(text@.len() as int) == text@);
    }
}

/// Escape text for HTML attribute values: `& " < >`.
pub fn push_escaped_attr(out: &mut String, text: &str)
    ensures
        final(out)@ == old(out)@ + escaped_attr(text@),
{
    let ghost start = out@;
    for c in it: text.chars()
        invariant
            it.seq() == text@,
            out@ == start + escaped_attr(text@.take(it.index())),
    {
        proof {
            assert(text@.take(it.index() + 1).drop_last() == text@.take(it.index()));
        }
        if c == '&' {
            out.push_str("&amp;");
        } else if c == '"' {
            out.push_str("&quot;");
        } else if c == '<' {
            out.push_str("&lt;");
        } else if c == '>' {
            out.push_str("&gt;");
        } else {
            out.push(c);
        }
    }
    proof {
        assert(text@.take(text@.len() as int) == text@);
    }
}

// ---------------------------------------------------------------------------
// Replacing a pair of characters
// ---------------------------------------------------------------------------

/// `text` with each occurrence of `a` followed by `b` replaced by `to`,
/// scanning from the left; occurrences do not overlap.
pub open spec fn pair_replaced(text: Seq<char>, a: char, b: char, to: Seq<char>) -> Seq<char>
    decreases text.len(),
{
    if text.len() == 0 {
        Seq::empty()
    } else if text.len() >= 2 && text[0] == a && text[1] == b {
        to + pair_replaced(text.skip(2), a, b, to)
    } else {
        seq![text[0]] + pair_replaced(text.skip(1), a, b, to)
    }
}

/// Append `text` with each `a` followed by `b` replaced by `to`.
pub fn push_pair_replaced(out: &mut String, text: &str, a: char, b: char, to: &str)
    ensures
        final(out)@ == old(out)@ + pair_replaced(text@, a, b, to@),
{
    let ghost start = out@;
    let chars = chars_of(text);
    let mut i: usize = 0;
    proof {
        assert(text@.skip(0) == text@);
    }
    while i < chars.len()
        invariant
            chars@ == text@,
            i <= chars@.len(),
            start + pair_replaced(text@, a, b, to@) == out@ + pair_replaced(
                text@.skip(i as int),
                a,
                b,
                to@,
            ),
        decreases chars.len() - i,
    {
        let ghost before = out@;
        if chars.len() - i >= 2 && chars[i] == a && chars[i + 1] == b {
            proof {
                assert(text@.skip(i as int).skip(2) == text@.skip(i + 2));
                assert(before + (to@ + pair_replaced(text@.skip(i + 2), a, b, to@)) == (before
                    + to@) + pair_replaced(text@.skip(i + 2), a, b, to@));
            }
            out.push_str(to);
            i += 2;
        } else {
            let c = chars[i];
            proof {
                assert(text@.skip(i as int).skip(1) == text@.skip(i + 1));
                assert(before + (seq![c] + pair_replaced(text@.skip(i + 1), a, b, to@))
                    == before.push(c) + pair_replaced(text@.skip(i + 1), a, b, to@));
            }
            out.push(c);
            i += 1;
        }
    }
}

// ---------------------------------------------------------------------------
// Numbers
// ---------------------------------------------------------------------------

/// The character of a hexadecimal digit.
pub open spec fn digit_char(d: int) -> char {
    if d < 10 {
        (48 + d) as char
    } else {
        (87 + d) as char
    }
}

/// A natural number in decimal.
pub open spec fn decimal(n: nat) -> Seq<char>
    decreases n,
{
    if n < 10 {
        seq![digit_char(n as int)]
    } else {
        decimal(n / 10).push(digit_char((n % 10) as int))
    }
}

/// An integer in decimal, with a leading minus sign where it is negative.
pub open spec fn signed_decimal(n: int) -> Seq<char> {
    if n < 0 {
        seq!['-'] + decimal((-n) as nat)
    } else {
        decimal(n as nat)
    }
}

/// A natural number in lower-case hexadecimal, zero-padded to at least `width`
/// digits.
pub open spec fn hex(n: nat, width: nat) -> Seq<char>
    decreases n, width,
{
    if n < 16 && width <= 1 {
        seq![digit_char(n as int)]
    } else {
        hex(n / 16, if width > 0 { (width - 1) as nat } else { 0 }).push(digit_char((n % 16) as int))
    }
}

fn digit(d: u8) -> (c: char)
    requires
        d < 16,
    ensures
        c == digit_char(d as int),
{
    if d < 10 {
        (48 + d) as char
    } else {
        (87 + d) as char
    }
}

/// Append `n` in decimal.
pub fn push_decimal(out: &mut String, n: u64)
    ensures
        final(out)@ == old(out)@ + decimal(n as nat),
    decreases n,
{
    if n >= 10 {
        push_decimal(out, n / 10);
    }
    out.push(digit((n % 10) as u8));
}

/// Append `n` in decimal, with its sign.
pub fn push_signed_decimal(out: &mut String, n: i64)
    ensures
        final(out)@ == old(out)@ + signed_decimal(n as int),
{
    if n < 0 {
        out.push('-');
        let magnitude: u64 = if n == i64::MIN {
            0x8000_0000_0000_0000
        } else {
            (-n) as u64
        };
        push_decimal(out, magnitude);
    } else {
        push_decimal(out, n as u64);
    }
}

/// Append `n` in lower-case hexadecimal, zero-padded to at least `width` digits.
pub fn push_hex(out: &mut String, n: u64, width: usize)
    ensures
        final(out)@ == old(out)@ + hex(n as nat, width as nat),
    decreases n, width,
{
    if n >= 16 || width > 1 {
        push_hex(out, n / 16, if width > 0 { width - 1 } else { 0 });
    }
    out.push(digit((n % 16) as u8));
}

// ---------------------------------------------------------------------------
// Laws
// ---------------------------------------------------------------------------

/// Escaped content holds no `<` and no `>`: no text becomes markup. An empty
/// result comes of an empty text alone.
pub proof fn escaped_html_has_no_markup(text: Seq<char>)
    ensures
        forall|i: int|
            0 <= i < escaped_html(text).len() ==> (#[trigger] escaped_html(text)[i]) != '<'
                && escaped_html(text)[i] != '>',
        escaped_html(text).len() >= text.len(),
    decreases text.len(),
{
    if text.len() > 0 {
        escaped_html_has_no_markup(text.drop_last());
        reveal_strlit("&amp;");
        reveal_strlit("&lt;");
        reveal_strlit("&gt;");
        let before = escaped_html(text.drop_last());
        let last = html_char(text.last());
        assert forall|i: int| 0 <= i < escaped_html(text).len() implies (#[trigger] escaped_html(
            text,
        )[i]) != '<' && escaped_html(text)[i] != '>' by {
            if i < before.len() {
                assert(escaped_html(text)[i] == before[i]);
            } else {
                assert(escaped_html(text)[i] == last[i - before.len()]);
            }
        }
    }
}

/// An escaped attribute value holds no `"`, no `<` and no `>`: no value ends
/// its attribute or its tag.
pub proof fn escaped_attr_has_no_markup(text: Seq<char>)
    ensures
        forall|i: int|
            0 <= i < escaped_attr(text).len() ==> (#[trigger] escaped_attr(text)[i]) != '<'
                && escaped_attr(text)[i] != '>' && escaped_attr(text)[i] != '"',
    decreases text.len(),
{
    if text.len() > 0 {
        escaped_attr_has_no_markup(text.drop_last());
        reveal_strlit("&amp;");
        reveal_strlit("&lt;");
        reveal_strlit("&gt;");
        reveal_strlit("&quot;");
        let before = escaped_attr(text.drop_last());
        let last = attr_char(text.last());
        assert forall|i: int| 0 <= i < escaped_attr(text).len() implies (#[trigger] escaped_attr(
            text,
        )[i]) != '<' && escaped_attr(text)[i] != '>' && escaped_attr(text)[i] != '"' by {
            if i < before.len() {
                assert(escaped_attr(text)[i] == before[i]);
            } else {
                assert(escaped_attr(text)[i] == last[i - before.len()]);
            }
        }
    }
}

/// Text without special characters is written as it is.
pub proof fn plain_text_is_not_escaped(text: Seq<char>)
    requires
        forall|i: int|
            0 <= i < text.len() ==> (#[trigger] text[i]) != '&' && text[i] != '<' && text[i] != '>'
                && text[i] != '"',
    ensures
        escaped_html(text) == text,
        escaped_attr(text) == text,
    decreases text.len(),
{
    if text.len() > 0 {
        let before = text.drop_last();
        assert(text.last() == text[text.len() - 1]);
        assert forall|i: int| 0 <= i < before.len() implies (#[trigger] before[i]) != '&'
            && before[i] != '<' && before[i] != '>' && before[i] != '"' by {
            assert(before[i] == text[i]);
        }
        plain_text_is_not_escaped(before);
        assert(before + seq![text.last()] =~= text);
    } else {
        assert(escaped_html(text) =~= text);
        assert(escaped_attr(text) =~= text);
    }
}

/// What an entity at the start of `text` stands for, and its length; any other
/// character stands for itself.
pub open spec fn entity(text: Seq<char>) -> (char, int) {
    if found_at(text, "&amp;"@, 0) {
        ('&', 5)
    } else if found_at(text, "&lt;"@, 0) {
        ('<', 4)
    } else if found_at(text, "&gt;"@, 0) {
        ('>', 4)
    } else if found_at(text, "&quot;"@, 0) {
        ('"', 6)
    } else {
        (text[0], 1)
    }
}

/// The text that an escaped text is shown as.
pub open spec fn unescaped(text: Seq<char>) -> Seq<char>
    decreases text.len(),
{
    if text.len() == 0 {
        Seq::empty()
    } else {
        let (c, n) = entity(text);
        proof {
            reveal_strlit("&amp;");
            reveal_strlit("&lt;");
            reveal_strlit("&gt;");
            reveal_strlit("&quot;");
        }
        seq![c] + unescaped(text.skip(n))
    }
}

proof fn entity_of_char(c: char, rest: Seq<char>)
    ensures
        entity(html_char(c) + rest) == (c, html_char(c).len() as int),
        entity(attr_char(c) + rest) == (c, attr_char(c).len() as int),
{
    reveal_strlit("&amp;");
    reveal_strlit("&lt;");
    reveal_strlit("&gt;");
    reveal_strlit("&quot;");
    let h = html_char(c) + rest;
    let a = attr_char(c) + rest;
    if c == '&' {
        assert(h.subrange(0, 5) =~= "&amp;"@);
    } else if c == '<' {
        assert(h.subrange(0, 4) =~= "&lt;"@);
        assert(h[1] == 'l');
        if h.len() >= 5 {
            assert(h.subrange(0, 5)[1] == 'l');
        }
    } else if c == '>' {
        assert(h.subrange(0, 4) =~= "&gt;"@);
        assert(h[1] == 'g');
        if h.len() >= 5 {
            assert(h.subrange(0, 5)[1] == 'g');
        }
        assert(h.subrange(0, 4)[1] == 'g');
    } else {
        no_entity(h, c);
        if c == '"' {
            assert(a.subrange(0, 6) =~= "&quot;"@);
            assert(a.subrange(0, 5)[1] == 'q');
            assert(a.subrange(0, 4)[1] == 'q');
        }
    }
}

proof fn no_entity(text: Seq<char>, c: char)
    requires
        text.len() > 0,
        text[0] == c,
        c != '&',
    ensures
        entity(text) == (c, 1int),
{
    reveal_strlit("&amp;");
    reveal_strlit("&lt;");
    reveal_strlit("&gt;");
    reveal_strlit("&quot;");
    if text.len() >= 4 {
        assert(text.subrange(0, 4)[0] == c);
    }
    if text.len() >= 5 {
        assert(text.subrange(0, 5)[0] == c);
    }
    if text.len() >= 6 {
        assert(text.subrange(0, 6)[0] == c);
    }
}

proof fn unescape_step(part: Seq<char>, c: char, rest: Seq<char>)
    requires
        part.len() > 0,
        entity(part + rest) == (c, part.len() as int),
    ensures
        unescaped(part + rest) == seq![c] + unescaped(rest),
{
    assert((part + rest).skip(part.len() as int) =~= rest);
}

proof fn escaped_html_front(c: char, rest: Seq<char>)
    ensures
        escaped_html(seq![c] + rest) == html_char(c) + escaped_html(rest),
        escaped_attr(seq![c] + rest) == attr_char(c) + escaped_attr(rest),
    decreases rest.len(),
{
    let whole = seq![c] + rest;
    if rest.len() == 0 {
        assert(whole.drop_last() =~= Seq::empty());
        assert(whole.last() == c);
        assert(escaped_html(whole.drop_last()) =~= Seq::empty());
        assert(escaped_attr(whole.drop_last()) =~= Seq::empty());
        assert(escaped_html(whole) =~= html_char(c) + escaped_html(rest));
        assert(escaped_attr(whole) =~= attr_char(c) + escaped_attr(rest));
    } else {
        escaped_html_front(c, rest.drop_last());
        assert(whole.drop_last() =~= seq![c] + rest.drop_last());
        assert(whole.last() == rest.last());
        assert(escaped_html(whole) =~= html_char(c) + escaped_html(rest));
        assert(escaped_attr(whole) =~= attr_char(c) + escaped_attr(rest));
    }
}

/// Escaping loses nothing: an escaped text is shown as the text that it was.
pub proof fn escaping_is_undone(text: Seq<char>)
    ensures
        unescaped(escaped_html(text)) == text,
        unescaped(escaped_attr(text)) == text,
    decreases text.len(),
{
    if text.len() > 0 {
        let c = text[0];
        let rest = text.skip(1);
        assert(seq![c] + rest =~= text);
        escaping_is_undone(rest);
        escaped_html_front(c, rest);
        entity_of_char(c, escaped_html(rest));
        entity_of_char(c, escaped_attr(rest));
        reveal_strlit("&amp;");
        reveal_strlit("&lt;");
        reveal_strlit("&gt;");
        reveal_strlit("&quot;");
        unescape_step(html_char(c), c, escaped_html(rest));
        unescape_step(attr_char(c), c, escaped_attr(rest));
    } else {
        assert(unescaped(escaped_html(text)) =~= text);
        assert(unescaped(escaped_attr(text)) =~= text);
    }
}

/// `a` is followed by `b` at position `i`.
pub open spec fn pair_at(text: Seq<char>, a: char, b: char, i: int) -> bool {
    0 <= i < text.len() - 1 && text[i] == a && text[i + 1] == b
}

/// After the replacement no pair is left, as long as the replacement brings none
/// in itself or at its ends.
pub proof fn replaced_pairs_are_gone(text: Seq<char>, a: char, b: char, to: Seq<char>)
    requires
        to.len() > 0,
        forall|i: int| !pair_at(to, a, b, i),
        to[0] != b,
        to[to.len() - 1] != a,
    ensures
        forall|i: int| !pair_at(pair_replaced(text, a, b, to), a, b, i),
        text.len() > 0 ==> pair_replaced(text, a, b, to).len() > 0 && (pair_replaced(
            text,
            a,
            b,
            to,
        )[0] == text[0] || pair_replaced(text, a, b, to)[0] == to[0]),
    decreases text.len(),
{
    if text.len() > 0 {
        let whole = pair_replaced(text, a, b, to);
        if text.len() >= 2 && text[0] == a && text[1] == b {
            let rest = pair_replaced(text.skip(2), a, b, to);
            replaced_pairs_are_gone(text.skip(2), a, b, to);
            assert forall|i: int| !pair_at(whole, a, b, i) by {
                assert(whole == to + rest);
                if i + 1 < to.len() {
                    assert(!pair_at(to, a, b, i));
                } else if i >= to.len() {
                    assert(!pair_at(rest, a, b, i - to.len()));
                }
            }
        } else {
            let rest = pair_replaced(text.skip(1), a, b, to);
            replaced_pairs_are_gone(text.skip(1), a, b, to);
            assert forall|i: int| !pair_at(whole, a, b, i) by {
                assert(whole == seq![text[0]] + rest);
                if i >= 1 {
                    assert(!pair_at(rest, a, b, i - 1));
                } else if i == 0 && rest.len() > 0 {
                    assert(text.len() >= 2);
                    assert(text.skip(1)[0] == text[1]);
                }
            }
        }
    }
}

/// Escaping goes character by character: a text in two parts is escaped as its
/// parts are, and of single characters only `&`, `<`, `>` and, in attributes, `"`
/// are written otherwise than they stand.
pub proof fn escaping_goes_by_character(a: Seq<char>, b: Seq<char>, c: char)
    ensures
        escaped_html(Seq::empty()) == Seq::<char>::empty(),
        escaped_attr(Seq::empty()) == Seq::<char>::empty(),
        escaped_html(a + b) == escaped_html(a) + escaped_html(b),
        escaped_attr(a + b) == escaped_attr(a) + escaped_attr(b),
        escaped_html(seq!['&']) == "&amp;"@,
        escaped_attr(seq!['&']) == "&amp;"@,
        escaped_html(seq!['<']) == "&lt;"@,
        escaped_attr(seq!['<']) == "&lt;"@,
        escaped_html(seq!['>']) == "&gt;"@,
        escaped_attr(seq!['>']) == "&gt;"@,
        escaped_html(seq!['"']) == seq!['"'],
        escaped_attr(seq!['"']) == "&quot;"@,
        c != '&' && c != '<' && c != '>' && c != '"' ==> escaped_html(seq![c]) == seq![c]
            && escaped_attr(seq![c]) == seq![c],
    decreases b.len(),
{
    one_character(c);
    one_character('&');
    one_character('<');
    one_character('>');
    one_character('"');
    if b.len() == 0 {
        assert(a + b =~= a);
        assert(escaped_html(a) + escaped_html(b) =~= escaped_html(a));
        assert(escaped_attr(a) + escaped_attr(b) =~= escaped_attr(a));
    } else {
        escaping_goes_by_character(a, b.drop_last(), c);
        assert((a + b).drop_last() =~= a + b.drop_last());
        assert((a + b).last() == b.last());
        assert(escaped_html(a + b) =~= escaped_html(a) + escaped_html(b));
        assert(escaped_attr(a + b) =~= escaped_attr(a) + escaped_attr(b));
    }
}

proof fn one_character(c: char)
    ensures
        escaped_html(seq![c]) == html_char(c),
        escaped_attr(seq![c]) == attr_char(c),
{
    let one = seq![c];
    assert(one.drop_last() =~= Seq::empty());
    assert(escaped_html(one.drop_last()) =~= Seq::empty());
    assert(escaped_attr(one.drop_last()) =~= Seq::empty());
    assert(one.last() == c);
    assert(escaped_html(one) =~= html_char(c));
    assert(escaped_attr(one) =~= attr_char(c));
}

/// A text without the pair stays as it is; a pair that no other pair overlaps from
/// the left is replaced, and what stands before and behind it is treated on its own.
pub proof fn pairs_are_replaced_in_turn(
    before: Seq<char>,
    behind: Seq<char>,
    a: char,
    b: char,
    to: Seq<char>,
)
    requires
        forall|i: int| !pair_at(before, a, b, i),
        a == b ==> before.len() == 0 || before.last() != a,
    ensures
        pair_replaced(before, a, b, to) == before,
        pair_replaced(before + seq![a, b] + behind, a, b, to) == before + to + pair_replaced(
            behind,
            a,
            b,
            to,
        ),
    decreases before.len(),
{
    let whole = before + seq![a, b] + behind;
    if before.len() == 0 {
        assert(whole.skip(2) =~= behind);
        assert(pair_replaced(whole, a, b, to) =~= before + to + pair_replaced(behind, a, b, to));
    } else {
        let rest = before.skip(1);
        assert forall|i: int| !pair_at(rest, a, b, i) by {
            assert(!pair_at(before, a, b, i + 1));
        }
        assert(!pair_at(before, a, b, 0));
        if before.len() == 1 {
            assert(whole[1] == a);
        } else {
            assert(whole[1] == before[1]);
        }
        pairs_are_replaced_in_turn(rest, behind, a, b, to);
        assert(whole.skip(1) =~= rest + seq![a, b] + behind);
        assert(seq![before[0]] + rest =~= before);
        assert(pair_replaced(whole, a, b, to) =~= before + to + pair_replaced(behind, a, b, to));
    }
}

/// The value of a digit.
pub open spec fn digit_value(c: char) -> int {
    if '0' <= c <= '9' {
        c as int - '0' as int
    } else if 'a' <= c <= 'f' {
        c as int - 'a' as int + 10
    } else {
        -1
    }
}

/// The number that digits stand for in a base, the highest digit first.
pub open spec fn digits_value(digits: Seq<char>, base: int) -> int
    decreases digits.len(),
{
    if digits.len() == 0 {
        0
    } else {
        base * digits_value(digits.drop_last(), base) + digit_value(digits.last())
    }
}

/// Every character is a digit of a base.
pub open spec fn all_digits(digits: Seq<char>, base: int) -> bool {
    forall|i: int| 0 <= i < digits.len() ==> 0 <= digit_value(#[trigger] digits[i]) < base
}

/// A decimal is the number's digits, without a leading zero but for zero itself.
pub proof fn decimals_are_their_numbers(n: nat)
    ensures
        digits_value(decimal(n), 10) == n,
        all_digits(decimal(n), 10),
        decimal(n).len() > 0,
        n > 0 ==> decimal(n)[0] != '0',
    decreases n,
{
    if n < 10 {
        assert(decimal(n).drop_last() =~= Seq::empty());
        assert(digits_value(decimal(n).drop_last(), 10) == 0);
    } else {
        decimals_are_their_numbers(n / 10);
        assert(decimal(n).drop_last() =~= decimal(n / 10));
        assert(digit_value(decimal(n).last()) == n % 10);
    }
}

/// A negative number is written as a minus sign and its absolute value, any other
/// one as its decimal.
pub proof fn signs_are_written(n: nat)
    ensures
        signed_decimal(n as int) == decimal(n),
        n > 0 ==> signed_decimal(-(n as int)) == "-"@ + decimal(n),
{
    reveal_strlit("-");
    assert("-"@ =~= seq!['-']);
}

/// A hexadecimal is the number's digits, with zeros in front up to the width and no
/// further.
pub proof fn hexadecimals_are_their_numbers(n: nat, width: nat)
    ensures
        digits_value(hex(n, width), 16) == n,
        all_digits(hex(n, width), 16),
        hex(n, width).len() >= width,
        hex(n, width).len() > 0,
        hex(n, width).len() > width && n > 0 ==> hex(n, width)[0] != '0',
        hex(n, width).len() > width && n == 0 ==> width == 0,
    decreases n, width,
{
    if n < 16 && width <= 1 {
        assert(hex(n, width).drop_last() =~= Seq::empty());
        assert(digits_value(hex(n, width).drop_last(), 16) == 0);
    } else {
        let w = if width > 0 {
            (width - 1) as nat
        } else {
            0
        };
        hexadecimals_are_their_numbers(n / 16, w);
        assert(hex(n, width).drop_last() =~= hex(n / 16, w));
        assert(digit_value(hex(n, width).last()) == n % 16);
    }
}

/// A text is found where it stands between two others, and a text that is found stands
/// between two others.
pub proof fn found_texts_stand_between_others(
    hay: Seq<char>,
    needle: Seq<char>,
    front: Seq<char>,
    back: Seq<char>,
)
    ensures
        has_text(front + needle + back, needle),
        has_text(hay, needle) ==> exists|a: Seq<char>, b: Seq<char>|
            hay == #[trigger] (a + needle + b),
        has_suffix(front + needle, needle),
        has_suffix(hay, needle) ==> exists|a: Seq<char>| hay == #[trigger] (a + needle),
{
    let whole = front + needle + back;
    let at = front.len() as int;
    assert(whole.subrange(at, at + needle.len()) =~= needle);
    assert(found_at(whole, needle, at));
    if has_text(hay, needle) {
        let p = choose|p: int| found_at(hay, needle, p);
        let (a, b) = (hay.take(p), hay.skip(p + needle.len()));
        assert(hay =~= a + needle + b);
    }
    assert((front + needle).subrange(at, at + needle.len()) =~= needle);
    if has_suffix(hay, needle) {
        let a = hay.take(hay.len() - needle.len());
        assert(hay =~= a + needle);
    }
}

/// A text that does not hold the pair stays as it is, whatever it starts and ends with.
pub proof fn texts_without_the_pair_stay(text: Seq<char>, a: char, b: char, to: Seq<char>)
    requires
        forall|i: int| !pair_at(text, a, b, i),
    ensures
        pair_replaced(text, a, b, to) == text,
    decreases text.len(),
{
    if text.len() > 0 {
        let rest = text.skip(1);
        assert(!pair_at(text, a, b, 0));
        assert forall|i: int| !pair_at(rest, a, b, i) by {
            assert(!pair_at(text, a, b, i + 1));
        }
        texts_without_the_pair_stay(rest, a, b, to);
        assert(seq![text[0]] + rest =~= text);
    }
    assert(pair_replaced(text, a, b, to) =~= text);
}

} // verus!
