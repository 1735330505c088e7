//! Server-sent events: the lines of a stream, the payloads they carry, and how events are framed.

#[allow(unused_imports)]
use crate::codec::{is_line_of, json_text, parsed_str, reads_back, NESTING_LIMIT};
use crate::codec::{parse_str, to_string};
use crate::error::{TranslateContext, TranslateError};
use crate::json::Json;
#[allow(unused_imports)]
use crate::json::{lemma_trees_index, lemma_trees_len, lemma_trees_push, trees, Tree};
use crate::text::{characters, same_text, text_between, trim};
#[allow(unused_imports)]
use crate::text::{
    lemma_trim_end_keeps_first, lemma_trimmed_without_end, texts_view, trim_start, trimmed,
};
use vstd::prelude::*;

verus! {

/// Where the first blank line starts: the first of two line feeds in a row, or the end.
pub open spec fn block_end(text: Seq<char>) -> int
    decreases text.len(),
{
    if text.len() < 2 {
        text.len() as int
    } else if text[0] == '\n' && text[1] == '\n' {
        0
    } else {
        1 + block_end(text.drop_first())
    }
}

/// Where the first line ends: its line feed, or the end.
pub open spec fn line_end(text: Seq<char>) -> int
    decreases text.len(),
{
    if text.len() == 0 {
        0
    } else if text[0] == '\n' {
        0
    } else {
        1 + line_end(text.drop_first())
    }
}

/// The line without the carriage return that belongs to its line end.
pub open spec fn without_return(line: Seq<char>) -> Seq<char> {
    if line.len() > 0 && line.last() == '\r' {
        line.drop_last()
    } else {
        line
    }
}

/// The lines of a block: each ends in a line feed or a carriage return and a line feed, the last
/// one may go without.
pub open spec fn lines(text: Seq<char>) -> Seq<Seq<char>>
    decreases text.len(),
{
    if text.len() == 0 {
        Seq::empty()
    } else {
        let end = line_end(text);
        if 0 <= end < text.len() {
            seq![without_return(text.take(end))] + lines(text.skip(end + 1))
        } else {
            seq![text]
        }
    }
}

/// The lines of a stream: those of its blocks, which are set apart by two line feeds.
pub open spec fn event_lines(text: Seq<char>) -> Seq<Seq<char>>
    decreases text.len(),
{
    let end = block_end(text);
    if 0 <= end <= text.len() - 2 {
        lines(text.take(end)) + event_lines(text.skip(end + 2))
    } else {
        lines(text)
    }
}

/// What a data line carries.
pub open spec fn payload(line: Seq<char>) -> Option<Seq<char>> {
    if line.len() >= 6 && line.take(6) == "data: "@ {
        Some(line.skip(6))
    } else {
        None
    }
}

/// What the data lines carry, in their order.
pub open spec fn payloads(lines: Seq<Seq<char>>) -> Seq<Seq<char>>
    decreases lines.len(),
{
    if lines.len() == 0 {
        Seq::empty()
    } else {
        match payload(lines.last()) {
            Some(carried) => payloads(lines.drop_last()).push(carried),
            None => payloads(lines.drop_last()),
        }
    }
}

/// Whether a payload marks the end of a stream.
pub open spec fn is_done(payload: Seq<char>) -> bool {
    trimmed(payload) == "[DONE]"@
}

/// The documents that the payloads hold. End marks and what is no JSON are passed over.
pub open spec fn chunks(payloads: Seq<Seq<char>>) -> Seq<Tree>
    decreases payloads.len(),
{
    if payloads.len() == 0 {
        Seq::empty()
    } else if is_done(payloads.last()) {
        chunks(payloads.drop_last())
    } else {
        match parsed_str(payloads.last()) {
            Some(chunk) => chunks(payloads.drop_last()).push(chunk),
            None => chunks(payloads.drop_last()),
        }
    }
}

/// The documents that a stream carries.
pub open spec fn stream_chunks(text: Seq<char>) -> Seq<Tree> {
    chunks(payloads(event_lines(text)))
}

/// Whether a payload says the same with a carriage return behind it. One that marks an end always
/// does.
pub open spec fn return_is_idle(payload: Seq<char>) -> bool {
    is_done(payload) || parsed_str(payload.push('\r')) == parsed_str(payload)
}

/// Whether every payload of a stream says the same with a carriage return behind it.
pub open spec fn returns_are_idle(text: Seq<char>) -> bool {
    forall|i: int|
        0 <= i < payloads(event_lines(text)).len() ==> return_is_idle(
            #[trigger] payloads(event_lines(text))[i],
        )
}

/// The end of a block lies within the text.
proof fn lemma_block_end_bounds(text: Seq<char>)
    ensures
        0 <= block_end(text) <= text.len(),
        block_end(text) != text.len() - 1 || text.len() < 2,
        block_end(text) <= text.len() - 2 ==> text[block_end(text)] == '\n' && text[block_end(text)
            + 1] == '\n',
    decreases text.len(),
{
    if text.len() >= 2 && !(text[0] == '\n' && text[1] == '\n') {
        lemma_block_end_bounds(text.drop_first());
    }
}

/// Finds the end of the block that starts at `from`.
fn find_block_end(chars: &Vec<char>, from: usize) -> (end: usize)
    requires
        from <= chars@.len(),
    ensures
        end == from + block_end(chars@.skip(from as int)),
        from <= end <= chars@.len(),
{
    let n: usize = chars.len();
    let mut i: usize = from;
    while i < n && n - i >= 2 && !(chars[i] == '\n' && chars[i + 1] == '\n')
        invariant
            n == chars@.len(),
            from <= i <= n,
            from + block_end(chars@.skip(from as int)) == i + block_end(chars@.skip(i as int)),
        decreases n - i,
    {
        assert(chars@.skip(i as int).drop_first() =~= chars@.skip(i + 1));
        i += 1;
    }
    if n - i < 2 {
        n
    } else {
        i
    }
}

/// Finds the end of the line that starts at `from`, up to `to`.
fn find_line_end(chars: &Vec<char>, from: usize, to: usize) -> (end: usize)
    requires
        from <= to <= chars@.len(),
    ensures
        end == from + line_end(chars@.subrange(from as int, to as int)),
        from <= end <= to,
{
    let mut i: usize = from;
    while i < to && chars[i] != '\n'
        invariant
            from <= i <= to <= chars@.len(),
            from + line_end(chars@.subrange(from as int, to as int)) == i + line_end(
                chars@.subrange(i as int, to as int),
            ),
        decreases to - i,
    {
        assert(chars@.subrange(i as int, to as int).drop_first() =~= chars@.subrange(
            i + 1,
            to as int,
        ));
        i += 1;
    }
    i
}

/// Whether the characters from `from` up to `to` start a data line.
fn starts_data(chars: &Vec<char>, from: usize, to: usize) -> (starts: bool)
    requires
        from <= to <= chars@.len(),
    ensures
        starts == (payload(chars@.subrange(from as int, to as int)) is Some),
{
    proof {
        reveal_strlit("data: ");
    }
    if to - from < 6 {
        return false;
    }
    let ghost line = chars@.subrange(from as int, to as int);
    if chars[from] == 'd' && chars[from + 1] == 'a' && chars[from + 2] == 't' && chars[from + 3]
        == 'a' && chars[from + 4] == ':' && chars[from + 5] == ' ' {
        assert(line.take(6) =~= "data: "@);
        true
    } else {
        assert(line.take(6)[0] == chars@[from as int]);
        assert(line.take(6)[1] == chars@[from + 1]);
        assert(line.take(6)[2] == chars@[from + 2]);
        assert(line.take(6)[3] == chars@[from + 3]);
        assert(line.take(6)[4] == chars@[from + 4]);
        assert(line.take(6)[5] == chars@[from + 5]);
        false
    }
}

/// Adds what the data lines of a block carry.
fn push_payloads(
    chars: &Vec<char>,
    from: usize,
    to: usize,
    found: &mut Vec<String>,
    Ghost(seen): Ghost<Seq<Seq<char>>>,
)
    requires
        from <= to <= chars@.len(),
        texts_view(old(found)@) == payloads(seen),
    ensures
        texts_view(final(found)@) == payloads(seen + lines(chars@.subrange(from as int, to as int))),
{
    let ghost block = chars@.subrange(from as int, to as int);
    let ghost mut passed: Seq<Seq<char>> = Seq::empty();
    let mut start: usize = from;
    assert(passed + lines(chars@.subrange(start as int, to as int)) =~= lines(block));
    assert(seen + passed =~= seen);
    while start < to
        invariant
            from <= start <= to <= chars@.len(),
            block == chars@.subrange(from as int, to as int),
            passed + lines(chars@.subrange(start as int, to as int)) == lines(block),
            texts_view(found@) == payloads(seen + passed),
        decreases to - start,
    {
        let ghost rest = chars@.subrange(start as int, to as int);
        let end = find_line_end(chars, start, to);
        let mut stop: usize = end;
        if end < to && end > start && chars[end - 1] == '\r' {
            stop = end - 1;
        }
        let ghost line = chars@.subrange(start as int, stop as int);
        proof {
            if end < to {
                assert(rest.take(end - start) =~= chars@.subrange(start as int, end as int));
                assert(without_return(rest.take(end - start)) =~= line);
                assert(rest.skip(end - start + 1) =~= chars@.subrange(end + 1, to as int));
            } else {
                assert(line =~= rest);
                assert(lines(chars@.subrange(to as int, to as int)) =~= Seq::empty());
            }
        }
        let ghost before = found@;
        if starts_data(chars, start, stop) {
            let carried = text_between(chars, start + 6, stop);
            assert(carried@ =~= line.skip(6));
            found.push(carried);
            assert(texts_view(found@) =~= texts_view(before).push(carried@));
        }
        proof {
            let more = seen + passed;
            assert(more.push(line).drop_last() =~= more);
            assert(seen + passed.push(line) =~= more.push(line));
            passed = passed.push(line);
        }
        if end < to {
            start = end + 1;
            assert(passed + lines(chars@.subrange(start as int, to as int)) =~= lines(block));
        } else {
            start = to;
            assert(passed + lines(chars@.subrange(start as int, to as int)) =~= lines(block));
        }
    }
    assert(passed =~= lines(block));
}

/// What the data lines of a stream carry.
pub fn stream_payloads(text: &str) -> (found: Vec<String>)
    ensures
        texts_view(found@) == payloads(event_lines(text@)),
{
    let chars = characters(text);
    let mut found: Vec<String> = Vec::new();
    let ghost mut seen: Seq<Seq<char>> = Seq::empty();
    let mut from: usize = 0;
    let mut more: bool = true;
    assert(chars@.skip(0) =~= chars@);
    assert(seen + event_lines(text@) =~= event_lines(text@));
    assert(texts_view(found@) =~= payloads(seen));
    while more
        invariant
            chars@ == text@,
            from <= chars@.len(),
            more ==> seen + event_lines(chars@.skip(from as int)) == event_lines(text@),
            !more ==> seen == event_lines(text@),
            texts_view(found@) == payloads(seen),
        decreases (if more { 1int } else { 0int }), chars@.len() - from,
    {
        let ghost rest = chars@.skip(from as int);
        let end = find_block_end(&chars, from);
        proof {
            lemma_block_end_bounds(rest);
        }
        push_payloads(&chars, from, end, &mut found, Ghost(seen));
        let ghost block = chars@.subrange(from as int, end as int);
        if end < chars.len() && chars.len() - end >= 2 {
            proof {
                assert(rest.take(end - from) =~= block);
                assert(rest.skip(end - from + 2) =~= chars@.skip(end + 2));
                assert((seen + lines(block)) + event_lines(chars@.skip(end + 2)) =~= seen
                    + event_lines(rest));
                seen = seen + lines(block);
            }
            from = end + 2;
        } else {
            proof {
                assert(block =~= rest);
                seen = seen + lines(block);
            }
            more = false;
        }
    }
    found
}

/// Whether a payload marks the end of a stream.
fn marks_end(payload: &str) -> (done: bool)
    ensures
        done == is_done(payload@),
{
    same_text(trim(payload).as_str(), "[DONE]")
}

/// The documents that a stream carries. A carriage return behind any payload of it would change
/// nothing.
pub fn read_chunks(text: &str) -> (read: Vec<Json>)
    ensures
        trees(read@) == stream_chunks(text@),
        returns_are_idle(text@),
{
    let carried = stream_payloads(text);
    let ghost all = texts_view(carried@);
    let mut read: Vec<Json> = Vec::new();
    for i in 0..carried.len()
        invariant
            all == texts_view(carried@),
            trees(read@) == chunks(all.take(i as int)),
            forall|j: int| 0 <= j < i ==> return_is_idle(#[trigger] all[j]),
    {
        assert(all.take(i + 1).drop_last() =~= all.take(i as int));
        assert(all[i as int] == carried@[i as int]@);
        if !marks_end(carried[i].as_str()) {
            if let Ok(chunk) = parse_str(carried[i].as_str()) {
                proof {
                    lemma_trees_push(read@, chunk);
                }
                read.push(chunk);
            }
        }
    }
    assert(all.take(all.len() as int) =~= all);
    read
}

/// A payload as it stands in a stream.
pub open spec fn frame(payload: Seq<char>) -> Seq<char> {
    "data: "@ + payload + "\n\n"@
}

/// The payloads as they stand in a stream, one after the other.
pub open spec fn framed(payloads: Seq<Seq<char>>) -> Seq<char>
    decreases payloads.len(),
{
    if payloads.len() == 0 {
        Seq::empty()
    } else {
        framed(payloads.drop_last()) + frame(payloads.last())
    }
}

/// The text that each event is written as.
pub open spec fn event_texts(events: Seq<Tree>) -> Seq<Seq<char>> {
    events.map_values(|event: Tree| json_text(event))
}

/// The stream of events.
pub open spec fn stream_text(events: Seq<Tree>) -> Seq<char> {
    framed(event_texts(events))
}

/// Adds an event to a stream. Its text is a single line, starts with a brace where the event is an
/// object, and reads back as the event.
pub fn push_sse(out: &mut String, event: &Json) -> (pushed: Result<(), TranslateError>)
    ensures
        pushed is Ok,
        final(out)@ == old(out)@ + frame(json_text(event@)),
        is_line_of(json_text(event@), event@),
{
    out.append("data: ");
    match to_string(event) {
        Ok(text) => {
            out.append(text.as_str());
            out.append("\n\n");
            assert(out@ =~= old(out)@ + frame(text@));
            Ok(())
        },
        Err(cause) => Err(TranslateError { context: TranslateContext::SerializeEvent, cause }),
    }
}

/// Writes events as a stream. Events that are objects and read back one by one read back from the
/// stream, all of them and in their order.
pub fn write_events(events: &Vec<Json>) -> (written: Result<String, TranslateError>)
    ensures
        written matches Ok(written) && written@ == stream_text(trees(events@)),
        written matches Ok(written) ==> (forall|i: int|
            0 <= i < events@.len() ==> (#[trigger] events@[i])@ is Object && reads_back(
                events@[i]@,
                NESTING_LIMIT as nat,
            )) ==> stream_chunks(written@) == trees(events@),
{
    let ghost all = trees(events@);
    let ghost texts = event_texts(all);
    proof {
        lemma_trees_len(events@);
    }
    let mut out = String::new();
    for i in 0..events.len()
        invariant
            all == trees(events@),
            all.len() == events@.len(),
            texts == event_texts(all),
            out@ == framed(texts.take(i as int)),
            forall|j: int| 0 <= j < i ==> is_line_of(#[trigger] texts[j], all[j]),
    {
        proof {
            lemma_trees_index(events@, i as int);
            assert(texts.take(i + 1).drop_last() =~= texts.take(i as int));
            assert(texts[i as int] == json_text(all[i as int]));
        }
        match push_sse(&mut out, &events[i]) {
            Ok(()) => {},
            Err(error) => return Err(error),
        }
    }
    assert(texts.take(texts.len() as int) =~= texts);
    proof {
        if forall|i: int|
            0 <= i < events@.len() ==> (#[trigger] events@[i])@ is Object && reads_back(
                events@[i]@,
                NESTING_LIMIT as nat,
            ) {
            assert forall|i: int| 0 <= i < all.len() implies #[trigger] all[i] is Object
                && reads_back(all[i], NESTING_LIMIT as nat) by {
                lemma_trees_index(events@, i);
                assert(events@[i]@ is Object);
            }
            lemma_lines_read_back(texts, all);
        }
    }
    Ok(out)
}

/// The first payload stands first in the stream.
proof fn lemma_framed_first(payloads: Seq<Seq<char>>)
    requires
        payloads.len() > 0,
    ensures
        framed(payloads) == frame(payloads[0]) + framed(payloads.drop_first()),
    decreases payloads.len(),
{
    if payloads.len() == 1 {
        assert(framed(payloads.drop_last()) =~= Seq::empty());
        assert(framed(payloads.drop_first()) =~= Seq::empty());
        assert(framed(payloads) =~= frame(payloads[0]) + framed(payloads.drop_first()));
    } else {
        lemma_framed_first(payloads.drop_last());
        assert(payloads.drop_last().drop_first() =~= payloads.drop_first().drop_last());
        assert(framed(payloads) =~= frame(payloads[0]) + framed(payloads.drop_first()));
    }
}

/// A block without a line feed ends at the blank line after it.
proof fn lemma_block_before_blank_line(block: Seq<char>, rest: Seq<char>)
    requires
        !block.contains('\n'),
    ensures
        block_end(block + "\n\n"@ + rest) == block.len(),
    decreases block.len(),
{
    reveal_strlit("\n\n");
    let text = block + "\n\n"@ + rest;
    if block.len() > 0 {
        assert(block.contains(block[0]));
        assert(text[0] == block[0]);
        assert forall|i: int| 0 <= i < block.drop_first().len() implies block.drop_first()[i]
            != '\n' by {
            assert(block.contains(block[i + 1]));
        }
        lemma_block_before_blank_line(block.drop_first(), rest);
        assert(text.drop_first() =~= block.drop_first() + "\n\n"@ + rest);
    }
}

/// A text without a line feed is a line.
pub proof fn lemma_no_line_feed_is_line(text: Seq<char>)
    requires
        !text.contains('\n'),
    ensures
        line_end(text) == text.len(),
    decreases text.len(),
{
    if text.len() > 0 {
        assert(text.contains(text[0]));
        assert forall|i: int| 0 <= i < text.drop_first().len() implies text.drop_first()[i]
            != '\n' by {
            assert(text.contains(text[i + 1]));
        }
        lemma_no_line_feed_is_line(text.drop_first());
    }
}

/// A text without a line feed is a block.
pub proof fn lemma_no_line_feed_is_block(text: Seq<char>)
    requires
        !text.contains('\n'),
    ensures
        block_end(text) == text.len(),
    decreases text.len(),
{
    if text.len() >= 2 {
        assert(text.contains(text[0]));
        assert forall|i: int| 0 <= i < text.drop_first().len() implies text.drop_first()[i]
            != '\n' by {
            assert(text.contains(text[i + 1]));
        }
        lemma_no_line_feed_is_block(text.drop_first());
    }
}

/// The payload of a first line comes first.
proof fn lemma_payloads_first(line: Seq<char>, rest: Seq<Seq<char>>)
    ensures
        payloads(seq![line] + rest) == match payload(line) {
            Some(carried) => seq![carried] + payloads(rest),
            None => payloads(rest),
        },
    decreases rest.len(),
{
    let all = seq![line] + rest;
    if rest.len() == 0 {
        assert(all.last() == line);
        assert(payloads(all.drop_last()) =~= Seq::empty());
        assert(payloads(rest) =~= Seq::empty());
        match payload(line) {
            Some(carried) => {
                assert(payloads(all) =~= seq![carried] + payloads(rest));
            },
            None => {},
        }
    } else {
        lemma_payloads_first(line, rest.drop_last());
        assert(all.drop_last() =~= seq![line] + rest.drop_last());
        assert(all.last() == rest.last());
        match payload(line) {
            Some(carried) => {
                assert(payloads(all) =~= seq![carried] + payloads(rest));
            },
            None => {},
        }
    }
}

/// Whether a text starts with a line feed.
pub open spec fn starts_blank(text: Seq<char>) -> bool {
    text.len() > 0 && text[0] == '\n'
}

/// A line as it is read where `rest` follows its line feed: a carriage return at its end belongs to
/// the line end, unless the line ends its block.
pub open spec fn read_line(line: Seq<char>, rest: Seq<char>) -> Seq<char> {
    if starts_blank(rest) {
        line
    } else {
        without_return(line)
    }
}

/// What a line carries, as a list of at most one payload.
pub open spec fn line_payloads(line: Seq<char>) -> Seq<Seq<char>> {
    match payload(line) {
        Some(carried) => seq![carried],
        None => Seq::empty(),
    }
}

/// Where the first line feed starts no blank line, the block ends where that of the rest does.
proof fn lemma_block_after_line(line: Seq<char>, rest: Seq<char>)
    requires
        !line.contains('\n'),
        !starts_blank(rest),
    ensures
        block_end(line + "\n"@ + rest) == line.len() + 1 + block_end(rest),
    decreases line.len(),
{
    reveal_strlit("\n");
    let text = line + "\n"@ + rest;
    if line.len() == 0 {
        assert(text.drop_first() =~= rest);
        if rest.len() == 0 {
            assert(text.len() == 1);
        } else {
            assert(text[1] == rest[0]);
        }
    } else {
        assert(line.contains(line[0]));
        assert(text[0] == line[0]);
        assert forall|i: int| 0 <= i < line.drop_first().len() implies line.drop_first()[i]
            != '\n' by {
            assert(line.contains(line[i + 1]));
        }
        lemma_block_after_line(line.drop_first(), rest);
        assert(text.drop_first() =~= line.drop_first() + "\n"@ + rest);
    }
}

/// A line ends at its line feed.
proof fn lemma_line_before_feed(line: Seq<char>, rest: Seq<char>)
    requires
        !line.contains('\n'),
    ensures
        line_end(line + "\n"@ + rest) == line.len(),
        lines(line + "\n"@ + rest) == seq![without_return(line)] + lines(rest),
    decreases line.len(),
{
    reveal_strlit("\n");
    let text = line + "\n"@ + rest;
    if line.len() > 0 {
        assert(line.contains(line[0]));
        assert(text[0] == line[0]);
        assert forall|i: int| 0 <= i < line.drop_first().len() implies line.drop_first()[i]
            != '\n' by {
            assert(line.contains(line[i + 1]));
        }
        lemma_line_before_feed(line.drop_first(), rest);
        assert(text.drop_first() =~= line.drop_first() + "\n"@ + rest);
    }
    assert(text.take(line.len() as int) =~= line);
    assert(text.skip(line.len() as int + 1) =~= rest);
}

/// A stream starts with its first line, unless that ends its block.
proof fn lemma_line_within_block(line: Seq<char>, rest: Seq<char>)
    requires
        !line.contains('\n'),
        !starts_blank(rest),
    ensures
        event_lines(line + "\n"@ + rest) == seq![without_return(line)] + event_lines(rest),
{
    reveal_strlit("\n");
    let text = line + "\n"@ + rest;
    let end = block_end(rest);
    lemma_block_end_bounds(rest);
    lemma_block_after_line(line, rest);
    if end <= rest.len() - 2 {
        assert(text.take(line.len() + 1 + end) =~= line + "\n"@ + rest.take(end));
        assert(text.skip(line.len() + 1 + end + 2) =~= rest.skip(end + 2));
        lemma_line_before_feed(line, rest.take(end));
        assert(event_lines(text) =~= seq![without_return(line)] + event_lines(rest));
    } else {
        lemma_line_before_feed(line, rest);
    }
}

/// A line feed at the start of a stream carries nothing.
proof fn lemma_leading_feed_carries_nothing(rest: Seq<char>)
    ensures
        payloads(event_lines("\n"@ + rest)) == payloads(event_lines(rest)),
    decreases rest.len(),
{
    reveal_strlit("\n");
    let text = "\n"@ + rest;
    let none = Seq::<char>::empty();
    if starts_blank(rest) {
        let more = rest.drop_first();
        assert(text[0] == '\n' && text[1] == rest[0]);
        assert(text.take(0) =~= none);
        assert(text.skip(2) =~= more);
        assert(event_lines(text) =~= event_lines(more));
        lemma_leading_feed_carries_nothing(more);
        assert(rest =~= "\n"@ + more);
    } else {
        assert(text =~= none + "\n"@ + rest);
        lemma_line_within_block(none, rest);
        lemma_payloads_first(none, event_lines(rest));
    }
}

/// What a stream carries is what its first line carries, followed by what the rest does.
pub proof fn lemma_first_line_carries(line: Seq<char>, rest: Seq<char>)
    requires
        !line.contains('\n'),
    ensures
        payloads(event_lines(line + "\n"@ + rest)) == line_payloads(read_line(line, rest))
            + payloads(event_lines(rest)),
{
    reveal_strlit("\n");
    reveal_strlit("\n\n");
    let text = line + "\n"@ + rest;
    if starts_blank(rest) {
        let more = rest.drop_first();
        assert(text =~= line + "\n\n"@ + more);
        lemma_block_before_blank_line(line, more);
        assert(text.take(line.len() as int) =~= line);
        assert(text.skip(line.len() as int + 2) =~= more);
        assert(rest =~= "\n"@ + more);
        lemma_leading_feed_carries_nothing(more);
        if line.len() == 0 {
            assert(event_lines(text) =~= event_lines(more));
        } else {
            lemma_no_line_feed_is_line(line);
            assert(event_lines(text) =~= seq![line] + event_lines(more));
            lemma_payloads_first(line, event_lines(more));
        }
    } else {
        lemma_line_within_block(line, rest);
        lemma_payloads_first(without_return(line), event_lines(rest));
    }
    assert(payloads(event_lines(text)) =~= line_payloads(read_line(line, rest)) + payloads(
        event_lines(rest),
    ));
}

/// The text behind the last line feed.
pub open spec fn last_line(text: Seq<char>) -> Seq<char>
    decreases text.len(),
{
    if text.len() == 0 || text.last() == '\n' {
        Seq::empty()
    } else {
        last_line(text.drop_last()).push(text.last())
    }
}

/// A text is what stands before its last line, up to a line feed, and its last line.
pub proof fn lemma_last_line(text: Seq<char>) -> (before: Seq<char>)
    ensures
        text == before + last_line(text),
        before.len() == 0 || before.last() == '\n',
        !last_line(text).contains('\n'),
    decreases text.len(),
{
    if text.len() == 0 || text.last() == '\n' {
        assert(text =~= text + last_line(text));
        text
    } else {
        let before = lemma_last_line(text.drop_last());
        let shorter = last_line(text.drop_last());
        assert(last_line(text) == shorter.push(text.last()));
        assert(text =~= (before + shorter).push(text.last()));
        assert(text =~= before + last_line(text));
        assert forall|i: int| 0 <= i < last_line(text).len() implies last_line(text)[i] != '\n' by {
            if i < shorter.len() {
                assert(shorter.contains(shorter[i]));
            }
        }
        before
    }
}

/// What stands before a line feed does not matter to the last line.
pub proof fn lemma_last_line_after_feed(before: Seq<char>, rest: Seq<char>)
    ensures
        last_line(before + "\n"@ + rest) == last_line(rest),
    decreases rest.len(),
{
    reveal_strlit("\n");
    let text = before + "\n"@ + rest;
    if rest.len() == 0 {
        assert(text.last() == '\n');
    } else {
        assert(text.last() == rest.last());
        lemma_last_line_after_feed(before, rest.drop_last());
        assert(text.drop_last() =~= before + "\n"@ + rest.drop_last());
    }
}

/// Whether a line says the same without a carriage return at its end.
pub open spec fn line_is_idle(line: Seq<char>) -> bool {
    line.len() > 0 && line.last() == '\r' ==> (payload(line.drop_last()) matches Some(carried)
        ==> return_is_idle(carried))
}

/// What a line that ends in a carriage return carries.
proof fn lemma_payload_with_return(line: Seq<char>)
    requires
        line.len() > 0,
        line.last() == '\r',
    ensures
        payload(line) == match payload(line.drop_last()) {
            Some(carried) => Some(carried.push('\r')),
            None => None,
        },
{
    reveal_strlit("data: ");
    let shorter = line.drop_last();
    if line.len() == 6 {
        assert(line.take(6)[5] == '\r');
    } else if line.len() > 6 {
        assert(line.take(6) =~= shorter.take(6));
        assert(line.skip(6) =~= shorter.skip(6).push('\r'));
    }
}

/// A line that says the same without a carriage return at its end gives the same documents.
pub proof fn lemma_idle_line(line: Seq<char>)
    requires
        line_is_idle(line),
    ensures
        chunks(line_payloads(line)) == chunks(line_payloads(without_return(line))),
{
    if line.len() > 0 && line.last() == '\r' {
        lemma_payload_with_return(line);
        if let Some(carried) = payload(line.drop_last()) {
            let longer = carried.push('\r');
            lemma_trimmed_without_end(carried, '\r');
            assert(seq![carried].drop_last() =~= Seq::empty());
            assert(seq![longer].drop_last() =~= Seq::empty());
            assert(chunks(seq![longer]) =~= chunks(seq![carried]));
        }
    }
}

/// Where every payload of a stream says the same with a carriage return behind it, so does that of
/// each of its lines.
pub proof fn lemma_read_line_is_idle(before: Seq<char>, line: Seq<char>, rest: Seq<char>)
    requires
        before.len() == 0 || before.last() == '\n',
        !line.contains('\n'),
        returns_are_idle(before + line + "\n"@ + rest),
    ensures
        payload(read_line(line, rest)) matches Some(carried) ==> return_is_idle(carried),
    decreases before.len(),
{
    reveal_strlit("\n");
    let text = before + line + "\n"@ + rest;
    let all = payloads(event_lines(text));
    if before.len() == 0 {
        assert(text =~= line + "\n"@ + rest);
        lemma_first_line_carries(line, rest);
        if payload(read_line(line, rest)) is Some {
            assert(all[0] == payload(read_line(line, rest))->0);
        }
    } else {
        let end = before.index_of_first('\n')->0;
        before.index_of_first_ensures('\n');
        assert(before.contains(before.last()));
        let head = before.take(end);
        let tail = before.skip(end + 1);
        let more = tail + line + "\n"@ + rest;
        assert(text =~= head + "\n"@ + more);
        lemma_first_line_carries(head, more);
        let first = line_payloads(read_line(head, more));
        let others = payloads(event_lines(more));
        assert forall|i: int| 0 <= i < others.len() implies return_is_idle(#[trigger] others[i]) by {
            assert(all[first.len() + i] == others[i]);
        }
        if tail.len() > 0 {
            assert(tail.last() == before.last());
        }
        lemma_read_line_is_idle(tail, line, rest);
    }
}

/// The documents of payloads in a row stand in a row.
pub proof fn lemma_chunks_append(first: Seq<Seq<char>>, second: Seq<Seq<char>>)
    ensures
        chunks(first + second) == chunks(first) + chunks(second),
    decreases second.len(),
{
    if second.len() == 0 {
        assert(first + second =~= first);
    } else {
        lemma_chunks_append(first, second.drop_last());
        assert((first + second).drop_last() =~= first + second.drop_last());
        assert((first + second).last() == second.last());
    }
    assert(chunks(first + second) =~= chunks(first) + chunks(second));
}

/// Payloads without line feeds come out of a stream as they went in, all of them and in their
/// order.
pub proof fn law_framed_payloads_are_read_back(carried: Seq<Seq<char>>)
    requires
        forall|i: int| 0 <= i < carried.len() ==> !(#[trigger] carried[i]).contains('\n'),
    ensures
        payloads(event_lines(framed(carried))) == carried,
    decreases carried.len(),
{
    reveal_strlit("data: ");
    reveal_strlit("\n\n");
    if carried.len() == 0 {
        assert(event_lines(framed(carried)) =~= Seq::empty());
        assert(payloads(event_lines(framed(carried))) =~= carried);
    } else {
        let first = carried[0];
        let rest = framed(carried.drop_first());
        let line = "data: "@ + first;
        let text = framed(carried);
        lemma_framed_first(carried);
        assert forall|i: int| 0 <= i < line.len() implies line[i] != '\n' by {
            if i >= 6 {
                assert(first.contains(first[i - 6]));
            }
        }
        lemma_block_before_blank_line(line, rest);
        assert(text =~= line + "\n\n"@ + rest);
        lemma_no_line_feed_is_line(line);
        assert(text.take(line.len() as int) =~= line);
        assert(text.skip(line.len() as int + 2) =~= rest);
        assert(lines(line) =~= seq![line]);
        assert(event_lines(text) == seq![line] + event_lines(rest));
        lemma_payloads_first(line, event_lines(rest));
        assert(line.take(6) =~= "data: "@);
        assert(line.skip(6) =~= first);
        assert forall|i: int| 0 <= i < carried.drop_first().len() implies !(
        #[trigger] carried.drop_first()[i]).contains('\n') by {
            assert(!carried[i + 1].contains('\n'));
        }
        law_framed_payloads_are_read_back(carried.drop_first());
        assert(seq![first] + carried.drop_first() =~= carried);
    }
}

/// The text of an object is no end mark.
proof fn lemma_object_marks_no_end(text: Seq<char>)
    requires
        text.len() > 0,
        text[0] == '{',
    ensures
        !is_done(text),
{
    reveal_strlit("[DONE]");
    assert(trim_start(text) == text);
    lemma_trim_end_keeps_first(text);
    assert("[DONE]"@[0] == '[');
}

/// Lines that objects can be read from give the objects.
proof fn lemma_line_chunks(texts: Seq<Seq<char>>, events: Seq<Tree>)
    requires
        texts.len() == events.len(),
        forall|i: int| 0 <= i < texts.len() ==> is_line_of(#[trigger] texts[i], events[i]),
        forall|i: int|
            0 <= i < events.len() ==> #[trigger] events[i] is Object && reads_back(
                events[i],
                NESTING_LIMIT as nat,
            ),
    ensures
        chunks(texts) == events,
    decreases texts.len(),
{
    if texts.len() == 0 {
        assert(chunks(texts) =~= events);
    } else {
        let n = texts.len() - 1;
        assert(is_line_of(texts[n], events[n]));
        assert(events[n] is Object);
        lemma_object_marks_no_end(texts[n]);
        lemma_line_chunks(texts.drop_last(), events.drop_last());
        assert(chunks(texts) =~= events);
    }
}

/// A stream of lines that objects can be read from gives the objects.
proof fn lemma_lines_read_back(texts: Seq<Seq<char>>, events: Seq<Tree>)
    requires
        texts.len() == events.len(),
        forall|i: int| 0 <= i < texts.len() ==> is_line_of(#[trigger] texts[i], events[i]),
        forall|i: int|
            0 <= i < events.len() ==> #[trigger] events[i] is Object && reads_back(
                events[i],
                NESTING_LIMIT as nat,
            ),
    ensures
        stream_chunks(framed(texts)) == events,
{
    assert forall|i: int| 0 <= i < texts.len() implies !(#[trigger] texts[i]).contains('\n') by {
        assert(is_line_of(texts[i], events[i]));
    }
    law_framed_payloads_are_read_back(texts);
    lemma_line_chunks(texts, events);
}

}
