//! Text helpers: comparison, slicing and the character classes that the formats use.

use vstd::prelude::*;
use vstd::utf8::*;

verus! {

/// `String::push` appends the given character to the end of the string.
pub assume_specification[ String::push ](s: &mut String, c: char)
    ensures
        final(s)@ == old(s)@.push(c),
;

/// What `core::str::from_utf8` reports of bytes that are no UTF-8.
pub uninterp spec fn utf8_error(bytes: Seq<u8>) -> Seq<char>;

/// Calls `core::str::from_utf8`: it gives the text that the bytes encode, or an error where they
/// are no UTF-8. What the error says depends on the bytes alone; it is given a name.
#[verifier::external_body]
pub(crate) fn text_from_utf8(bytes: &[u8]) -> (text: Result<&str, String>)
    ensures
        text is Ok <==> valid_utf8(bytes@),
        text matches Ok(text) ==> encode_utf8(text@) == bytes@,
        text matches Err(cause) ==> cause@ == utf8_error(bytes@),
{
    match core::str::from_utf8(bytes) {
        Ok(text) => Ok(text),
        Err(error) => Err(error.to_string()),
    }
}

/// Two texts with the same UTF-8 encoding are the same text.
pub proof fn lemma_encoding_is_injective(a: Seq<char>, b: Seq<char>)
    requires
        encode_utf8(a) == encode_utf8(b),
    ensures
        a == b,
{
    broadcast use encode_utf8_decode_utf8;

    assert(decode_utf8(encode_utf8(a)) == a);
    assert(decode_utf8(encode_utf8(b)) == b);
}

/// Whether two texts hold the same characters.
pub fn same_text(a: &str, b: &str) -> (same: bool)
    ensures
        same == (a@ == b@),
{
    let x = a.as_bytes();
    let y = b.as_bytes();
    if x.len() != y.len() {
        return false;
    }
    let n: usize = x.len();
    for i in 0..n
        invariant
            n == x@.len(),
            n == y@.len(),
            x@ == encode_utf8(a@),
            y@ == encode_utf8(b@),
            forall|j: int| 0 <= j < i ==> x@[j] == y@[j],
    {
        if x[i] != y[i] {
            return false;
        }
    }
    proof {
        assert(x@ =~= y@);
        lemma_encoding_is_injective(a@, b@);
    }
    true
}

/// The characters of a text.
pub fn characters(text: &str) -> (chars: Vec<char>)
    ensures
        chars@ == text@,
{
    let mut chars: Vec<char> = Vec::new();
    for c in it: text.chars()
        invariant
            chars@ == it.seq().take(it.index()),
            it.seq() == text@,
    {
        chars.push(c);
    }
    assert(text@.take(text@.len() as int) =~= text@);
    chars
}

/// The text made of the characters from `from` up to `to`.
pub fn text_between(chars: &Vec<char>, from: usize, to: usize) -> (text: String)
    requires
        from <= to <= chars@.len(),
    ensures
        text@ == chars@.subrange(from as int, to as int),
{
    let mut text = String::new();
    for i in from..to
        invariant
            from <= i <= to <= chars@.len(),
            text@ =~= chars@.subrange(from as int, i as int),
    {
        text.push(chars[i]);
    }
    text
}

/// The characters of each text.
pub open spec fn texts_view(texts: Seq<String>) -> Seq<Seq<char>> {
    texts.map_values(|text: String| text@)
}

/// The characters with the Unicode property `White_Space`.
pub open spec fn is_white_space(c: char) -> bool {
    ||| '\u{9}' <= c <= '\u{d}'
    ||| c == ' '
    ||| c == '\u{85}'
    ||| c == '\u{a0}'
    ||| c == '\u{1680}'
    ||| '\u{2000}' <= c <= '\u{200a}'
    ||| c == '\u{2028}'
    ||| c == '\u{2029}'
    ||| c == '\u{202f}'
    ||| c == '\u{205f}'
    ||| c == '\u{3000}'
}

/// Whether a character is white space.
pub fn white_space(c: char) -> (white: bool)
    ensures
        white == is_white_space(c),
{
    ('\u{9}' <= c && c <= '\u{d}') || c == ' ' || c == '\u{85}' || c == '\u{a0}' || c == '\u{1680}'
        || ('\u{2000}' <= c && c <= '\u{200a}') || c == '\u{2028}' || c == '\u{2029}' || c
        == '\u{202f}' || c == '\u{205f}' || c == '\u{3000}'
}

/// The text without the white space at its start.
pub open spec fn trim_start(text: Seq<char>) -> Seq<char>
    decreases text.len(),
{
    if text.len() > 0 && is_white_space(text[0]) {
        trim_start(text.drop_first())
    } else {
        text
    }
}

/// The text without the white space at its end.
pub open spec fn trim_end(text: Seq<char>) -> Seq<char>
    decreases text.len(),
{
    if text.len() > 0 && is_white_space(text.last()) {
        trim_end(text.drop_last())
    } else {
        text
    }
}

/// The text without the white space at either end.
pub open spec fn trimmed(text: Seq<char>) -> Seq<char> {
    trim_end(trim_start(text))
}

/// The text without the white space at either end.
pub fn trim(text: &str) -> (inner: String)
    ensures
        inner@ == trimmed(text@),
{
    let chars = characters(text);
    let mut from: usize = 0;
    let mut to: usize = chars.len();
    assert(text@.skip(0) =~= text@);
    while from < chars.len() && white_space(chars[from])
        invariant
            chars@ == text@,
            from <= chars@.len(),
            trim_start(text@) == trim_start(text@.skip(from as int)),
        decreases chars@.len() - from,
    {
        assert(text@.skip(from as int).drop_first() =~= text@.skip(from + 1));
        from += 1;
    }
    let ghost rest = text@.skip(from as int);
    assert(rest == trim_start(text@));
    assert(rest.take(to - from) =~= rest);
    while from < to && white_space(chars[to - 1])
        invariant
            chars@ == text@,
            from <= to <= chars@.len(),
            rest == text@.skip(from as int),
            trim_end(rest) == trim_end(rest.take(to - from)),
        decreases to,
    {
        assert(rest.take(to - from).drop_last() =~= rest.take(to - 1 - from));
        to -= 1;
    }
    assert(rest.take(to - from) =~= chars@.subrange(from as int, to as int));
    text_between(&chars, from, to)
}

/// What is there, or else the default.
pub open spec fn or_default<A>(value: Option<A>, default: A) -> A {
    match value {
        Some(value) => value,
        None => default,
    }
}

/// The texts one after the other, with the separator between them.
pub open spec fn joined(texts: Seq<Seq<char>>, separator: Seq<char>) -> Seq<char>
    decreases texts.len(),
{
    if texts.len() == 0 {
        Seq::empty()
    } else if texts.len() == 1 {
        texts.last()
    } else {
        joined(texts.drop_last(), separator) + separator + texts.last()
    }
}

/// The texts one after the other, with the separator between them.
pub fn join_texts(texts: &Vec<String>, separator: &str) -> (whole: String)
    ensures
        whole@ == joined(texts_view(texts@), separator@),
{
    let mut whole = String::new();
    let ghost parts = texts_view(texts@);
    for i in 0..texts.len()
        invariant
            parts == texts_view(texts@),
            whole@ == joined(parts.take(i as int), separator@),
    {
        assert(parts.take(i + 1).drop_last() =~= parts.take(i as int));
        if i > 0 {
            whole.append(separator);
        }
        whole.append(texts[i].as_str());
        assert(whole@ =~= joined(parts.take(i + 1), separator@));
    }
    assert(parts.take(parts.len() as int) =~= parts);
    whole
}

/// What starts with a visible character keeps it when white space is taken from its end.
pub proof fn lemma_trim_end_keeps_first(text: Seq<char>)
    requires
        text.len() > 0,
        !is_white_space(text[0]),
    ensures
        trim_end(text).len() > 0,
        trim_end(text)[0] == text[0],
    decreases text.len(),
{
    if is_white_space(text.last()) {
        lemma_trim_end_keeps_first(text.drop_last());
    }
}

/// White space at the end of a text makes no difference once the text is trimmed.
pub proof fn lemma_trimmed_without_end(text: Seq<char>, c: char)
    requires
        is_white_space(c),
    ensures
        trimmed(text.push(c)) == trimmed(text),
    decreases text.len(),
{
    let longer = text.push(c);
    if text.len() == 0 {
        assert(longer.drop_first() =~= text);
    } else if is_white_space(text[0]) {
        assert(longer.drop_first() =~= text.drop_first().push(c));
        lemma_trimmed_without_end(text.drop_first(), c);
    } else {
        assert(longer.drop_last() =~= text);
    }
}

/// An ASCII upper case letter as its lower case letter, any other character as it is.
pub open spec fn lower_char(c: char) -> char {
    if 'A' <= c <= 'Z' {
        ((c as u32) + 32) as char
    } else {
        c
    }
}

/// The text with its ASCII upper case letters as lower case letters.
pub open spec fn lowered(text: Seq<char>) -> Seq<char> {
    text.map_values(|c: char| lower_char(c))
}

/// The text with its ASCII upper case letters as lower case letters.
pub fn to_lower(text: &str) -> (lower: String)
    ensures
        lower@ == lowered(text@),
{
    let chars = characters(text);
    let mut lower = String::new();
    for i in 0..chars.len()
        invariant
            chars@ == text@,
            lower@ =~= lowered(text@).take(i as int),
    {
        let c = chars[i];
        if 'A' <= c && c <= 'Z' {
            let code: u8 = c as u8;
            lower.push((code + 32) as char);
        } else {
            lower.push(c);
        }
    }
    assert(lowered(text@).take(text@.len() as int) =~= lowered(text@));
    lower
}

/// A text in lower case stays as it is.
pub proof fn lemma_lowered_twice(text: Seq<char>)
    ensures
        lowered(lowered(text)) == lowered(text),
{
    assert(lowered(lowered(text)) =~= lowered(text));
}

/// The digit of a number below ten.
pub open spec fn digit(n: nat) -> char {
    (48 + n) as char
}

/// A number in decimal notation.
pub open spec fn decimal_text(n: nat) -> Seq<char>
    decreases n,
{
    if n < 10 {
        seq![digit(n)]
    } else {
        decimal_text(n / 10).push(digit(n % 10))
    }
}

/// Appends a number in decimal notation.
pub fn push_decimal(text: &mut String, n: u16)
    ensures
        final(text)@ == old(text)@ + decimal_text(n as nat),
    decreases n,
{
    if n >= 10 {
        push_decimal(text, n / 10);
    }
    text.push((48 + (n % 10) as u8) as char);
    assert(text@ =~= old(text)@ + decimal_text(n as nat));
}

}
