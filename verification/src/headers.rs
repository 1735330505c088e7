//! Headers: which ones pass through the proxy, in either direction.

#[allow(unused_imports)]
use crate::text::lowered;
use crate::text::{same_text, to_lower};
use vstd::prelude::*;
use vstd::utf8::*;

verus! {

/// A header.
#[verifier::ext_equal]
pub struct Line {
    pub name: Seq<char>,
    pub value: Seq<u8>,
}

/// A header.
pub struct HeaderLine {
    pub name: String,
    pub value: Vec<u8>,
}

impl View for HeaderLine {
    type V = Line;

    open spec fn view(&self) -> Line {
        Line { name: self.name@, value: self.value@ }
    }
}

/// The headers of a list.
pub open spec fn lines_view(lines: Seq<HeaderLine>) -> Seq<Line> {
    lines.map_values(|line: HeaderLine| line@)
}

/// The header that was made, where one was.
pub open spec fn line_view(line: Option<HeaderLine>) -> Option<Line> {
    match line {
        Some(line) => Some(line@),
        None => None,
    }
}

/// A character that a header's name may hold.
pub open spec fn is_token_char(c: char) -> bool {
    ||| 'a' <= c <= 'z'
    ||| 'A' <= c <= 'Z'
    ||| '0' <= c <= '9'
    ||| c == '!' || c == '#' || c == '$' || c == '%' || c == '&' || c == '\'' || c == '*'
    ||| c == '+' || c == '-' || c == '.' || c == '^' || c == '_' || c == '`' || c == '|' || c == '~'
}

/// A text that can be a header's name.
pub open spec fn is_header_name(name: Seq<char>) -> bool {
    &&& 1 <= name.len() <= 65535
    &&& forall|i: int| 0 <= i < name.len() ==> is_token_char(#[trigger] name[i])
}

/// A byte that a header's value may hold.
pub open spec fn is_value_byte(b: u8) -> bool {
    b >= 32 && b != 127 || b == 9
}

/// Bytes that can be a header's value.
pub open spec fn is_header_value(value: Seq<u8>) -> bool {
    forall|i: int| 0 <= i < value.len() ==> is_value_byte(#[trigger] value[i])
}

/// Calls `HeaderName::from_bytes` of `reqwest` on the bytes of a text: it takes the names of up to
/// 65535 token characters and puts them in lower case.
#[verifier::external_body]
fn header_name(name: &str) -> (read: Option<String>)
    ensures
        read is Some <==> is_header_name(name@),
        read matches Some(read) ==> read@ == lowered(name@),
{
    match reqwest::header::HeaderName::from_bytes(name.as_bytes()) {
        Ok(name) => Some(name.as_str().to_owned()),
        Err(_) => None,
    }
}

/// Calls `HeaderValue::from_bytes` of `reqwest`: it takes the bytes from 32 on except 127, and the
/// tab, and keeps them.
#[verifier::external_body]
fn header_value(value: &[u8]) -> (read: Option<Vec<u8>>)
    ensures
        read is Some <==> is_header_value(value@),
        read matches Some(read) ==> read@ == value@,
{
    match reqwest::header::HeaderValue::from_bytes(value) {
        Ok(value) => Some(value.as_bytes().to_vec()),
        Err(_) => None,
    }
}

/// Calls `HeaderValue::from_str` of `reqwest`: it takes a text by the same rule as
/// `HeaderValue::from_bytes` takes its bytes, and keeps them. Its error always says the same.
#[verifier::external_body]
pub(crate) fn header_value_of_text(text: &str) -> (read: Result<Vec<u8>, String>)
    ensures
        read is Ok <==> is_header_value(encode_utf8(text@)),
        read matches Ok(read) ==> read@ == encode_utf8(text@),
        read matches Err(cause) ==> cause@ == "failed to parse header value"@,
{
    match reqwest::header::HeaderValue::from_str(text) {
        Ok(value) => Ok(value.as_bytes().to_vec()),
        Err(error) => Err(error.to_string()),
    }
}

/// Whether a header is made of ASCII.
pub open spec fn is_ascii_line(line: Line) -> bool {
    &&& is_ascii_chars(line.name)
    &&& forall|i: int| 0 <= i < line.value.len() ==> #[trigger] line.value[i] < 128
}

/// Calls `Header::from_bytes` of `tiny_http`: it takes a name and a value of ASCII and keeps them.
#[verifier::external_body]
fn response_header(name: &str, value: &[u8]) -> (made: Option<HeaderLine>)
    ensures
        made is Some <==> is_ascii_line(Line { name: name@, value: value@ }),
        made matches Some(made) ==> made@ == (Line { name: name@, value: value@ }),
{
    match tiny_http::Header::from_bytes(name.as_bytes(), value) {
        Ok(made) => Some(HeaderLine {
            name: made.field.as_str().as_str().to_owned(),
            value: made.value.as_bytes().to_vec(),
        }),
        Err(_) => None,
    }
}

/// A header as `reqwest` takes it, with its name in lower case, where it does.
pub open spec fn valid_line(line: Line) -> Option<Line> {
    if is_header_name(line.name) && is_header_value(line.value) {
        Some(Line { name: lowered(line.name), value: line.value })
    } else {
        None
    }
}

/// What is sent upstream of a client's header: its credentials and its host stay behind.
pub open spec fn forwarded_line(line: Line) -> Option<Line> {
    let name = lowered(line.name);
    if name == "authorization"@ || name == "host"@ {
        None
    } else {
        valid_line(Line { name, value: line.value })
    }
}

/// What is sent upstream of a client's headers, in their order.
pub open spec fn forwarded_lines(lines: Seq<Line>) -> Seq<Line>
    decreases lines.len(),
{
    if lines.len() == 0 {
        Seq::empty()
    } else {
        match forwarded_line(lines.last()) {
            Some(line) => forwarded_lines(lines.drop_last()).push(line),
            None => forwarded_lines(lines.drop_last()),
        }
    }
}

/// The headers that `reqwest` takes, in their order.
pub open spec fn valid_lines(lines: Seq<Line>) -> Seq<Line>
    decreases lines.len(),
{
    if lines.len() == 0 {
        Seq::empty()
    } else {
        match valid_line(lines.last()) {
            Some(line) => valid_lines(lines.drop_last()).push(line),
            None => valid_lines(lines.drop_last()),
        }
    }
}

/// A header that the server writes itself.
pub open spec fn is_managed(name: Seq<char>) -> bool {
    ||| name == "content-length"@
    ||| name == "transfer-encoding"@
    ||| name == "connection"@
    ||| name == "trailer"@
    ||| name == "upgrade"@
}

/// Whether a header gives the type of the content.
pub open spec fn is_content_type(name: Seq<char>) -> bool {
    lowered(name) == lowered("content-type"@)
}

/// The header that gives the type of the content.
pub open spec fn content_type_line(content_type: Seq<char>) -> Line {
    Line { name: "content-type"@, value: encode_utf8(content_type) }
}

/// What a client gets of an upstream header.
pub open spec fn returned_line(line: Line, forced: Option<Seq<char>>) -> Option<Line> {
    let shown = match forced {
        Some(content_type) => if is_content_type(line.name) {
            content_type_line(content_type)
        } else {
            line
        },
        None => line,
    };
    if !is_managed(line.name) && is_ascii_line(shown) {
        Some(shown)
    } else {
        None
    }
}

/// What a client gets of the upstream's headers, in their order.
pub open spec fn returned_lines(lines: Seq<Line>, forced: Option<Seq<char>>) -> Seq<Line>
    decreases lines.len(),
{
    if lines.len() == 0 {
        Seq::empty()
    } else {
        match returned_line(lines.last(), forced) {
            Some(line) => returned_lines(lines.drop_last(), forced).push(line),
            None => returned_lines(lines.drop_last(), forced),
        }
    }
}

/// Whether an upstream header gives the type of the content.
pub open spec fn has_content_type(lines: Seq<Line>) -> bool {
    exists|i: int|
        0 <= i < lines.len() && !is_managed(lines[i].name) && #[trigger] is_content_type(
            lines[i].name,
        )
}

/// The headers of a client's response: where the type of the content is forced, it is given even
/// if the upstream gave none.
pub open spec fn response_lines(lines: Seq<Line>, forced: Option<Seq<char>>) -> Seq<Line> {
    match forced {
        Some(content_type) => if !has_content_type(lines) && is_ascii_line(
            content_type_line(content_type),
        ) {
            returned_lines(lines, forced).push(content_type_line(content_type))
        } else {
            returned_lines(lines, forced)
        },
        None => returned_lines(lines, forced),
    }
}

/// A header as `reqwest` takes it, where it does.
fn validate(name: &str, value: &[u8]) -> (line: Option<HeaderLine>)
    ensures
        line_view(line) == valid_line(Line { name: name@, value: value@ }),
{
    match header_name(name) {
        Some(name) => match header_value(value) {
            Some(value) => Some(HeaderLine { name, value }),
            None => None,
        },
        None => None,
    }
}

/// What is sent upstream of a client's headers.
pub fn forward_headers(lines: &Vec<HeaderLine>) -> (sent: Vec<HeaderLine>)
    ensures
        lines_view(sent@) == forwarded_lines(lines_view(lines@)),
{
    let ghost all = lines_view(lines@);
    let mut sent: Vec<HeaderLine> = Vec::new();
    assert(lines_view(sent@) =~= forwarded_lines(all.take(0)));
    for i in 0..lines.len()
        invariant
            all == lines_view(lines@),
            lines_view(sent@) == forwarded_lines(all.take(i as int)),
    {
        assert(all.take(i + 1).drop_last() =~= all.take(i as int));
        assert(all[i as int] == lines@[i as int]@);
        let lower = to_lower(lines[i].name.as_str());
        let ghost before = sent@;
        if !same_text(lower.as_str(), "authorization") && !same_text(lower.as_str(), "host") {
            if let Some(line) = validate(lower.as_str(), lines[i].value.as_slice()) {
                sent.push(line);
                assert(lines_view(sent@) =~= lines_view(before).push(line@));
            }
        }
    }
    assert(all.take(all.len() as int) =~= all);
    sent
}

/// The headers that `reqwest` takes.
pub fn valid_headers(lines: &Vec<HeaderLine>) -> (valid: Vec<HeaderLine>)
    ensures
        lines_view(valid@) == valid_lines(lines_view(lines@)),
{
    let ghost all = lines_view(lines@);
    let mut valid: Vec<HeaderLine> = Vec::new();
    assert(lines_view(valid@) =~= valid_lines(all.take(0)));
    for i in 0..lines.len()
        invariant
            all == lines_view(lines@),
            lines_view(valid@) == valid_lines(all.take(i as int)),
    {
        assert(all.take(i + 1).drop_last() =~= all.take(i as int));
        assert(all[i as int] == lines@[i as int]@);
        let ghost before = valid@;
        if let Some(line) = validate(lines[i].name.as_str(), lines[i].value.as_slice()) {
            valid.push(line);
            assert(lines_view(valid@) =~= lines_view(before).push(line@));
        }
    }
    assert(all.take(all.len() as int) =~= all);
    valid
}

/// Whether the server writes a header itself.
fn managed(name: &str) -> (managed: bool)
    ensures
        managed == is_managed(name@),
{
    same_text(name, "content-length") || same_text(name, "transfer-encoding") || same_text(
        name,
        "connection",
    ) || same_text(name, "trailer") || same_text(name, "upgrade")
}

/// Whether a header gives the type of the content.
fn gives_content_type(name: &str) -> (gives: bool)
    ensures
        gives == is_content_type(name@),
{
    same_text(to_lower(name).as_str(), to_lower("content-type").as_str())
}

/// The headers of a client's response.
pub fn response_headers(lines: &Vec<HeaderLine>, forced: Option<&'static str>) -> (sent: Vec<
    HeaderLine,
>)
    ensures
        lines_view(sent@) == response_lines(
            lines_view(lines@),
            match forced {
                Some(content_type) => Some(content_type@),
                None => None,
            },
        ),
{
    let ghost all = lines_view(lines@);
    let ghost wanted = match forced {
        Some(content_type) => Some(content_type@),
        None => None,
    };
    let mut sent: Vec<HeaderLine> = Vec::new();
    let mut overridden: bool = false;
    assert(lines_view(sent@) =~= returned_lines(all.take(0), wanted));
    for i in 0..lines.len()
        invariant
            all == lines_view(lines@),
            wanted == match forced {
                Some(content_type) => Some(content_type@),
                None => None,
            },
            lines_view(sent@) == returned_lines(all.take(i as int), wanted),
            overridden <==> wanted is Some && has_content_type(all.take(i as int))
                && is_ascii_line(content_type_line(wanted->0)),
    {
        let ghost seen = all.take(i as int);
        let ghost more = all.take(i + 1);
        proof {
            assert(more.drop_last() =~= seen);
            assert(all[i as int] == lines@[i as int]@);
            assert(more[i as int] == all[i as int]);
            if has_content_type(seen) {
                let k = choose|k: int|
                    0 <= k < seen.len() && !is_managed(seen[k].name) && #[trigger] is_content_type(
                        seen[k].name,
                    );
                assert(more[k] == seen[k]);
                assert(is_content_type(more[k].name));
            }
            if has_content_type(more) {
                let k = choose|k: int|
                    0 <= k < more.len() && !is_managed(more[k].name) && #[trigger] is_content_type(
                        more[k].name,
                    );
                if k < i {
                    assert(seen[k] == more[k]);
                    assert(is_content_type(seen[k].name));
                }
            }
        }
        let name = lines[i].name.as_str();
        let ghost before = sent@;
        if !managed(name) {
            let mut made: Option<HeaderLine> = None;
            if forced.is_some() && gives_content_type(name) {
                made = response_header("content-type", forced.unwrap().as_bytes());
                assert(is_content_type(more[i as int].name));
                if made.is_some() {
                    overridden = true;
                }
            } else {
                made = response_header(name, lines[i].value.as_slice());
            }
            if let Some(line) = made {
                sent.push(line);
                assert(lines_view(sent@) =~= lines_view(before).push(line@));
            }
        }
    }
    assert(all.take(all.len() as int) =~= all);
    if let Some(content_type) = forced {
        if !overridden {
            let ghost before = sent@;
            if let Some(line) = response_header("content-type", content_type.as_bytes()) {
                sent.push(line);
                assert(lines_view(sent@) =~= lines_view(before).push(line@));
            }
        }
    }
    sent
}

}
