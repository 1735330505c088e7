//! What a response stream says, in terms of the chunks of the chat stream that it was made from.

#[allow(unused_imports)]
use crate::codec::{json_text, parsed_str};
#[allow(unused_imports)]
use crate::error::{TranslateContext, TranslateFailure};
#[allow(unused_imports)]
use crate::json::Tree;
#[allow(unused_imports)]
use crate::laws::law_deltas_may_be_split;
#[allow(unused_imports)]
use crate::response::{counts_fit, first_choice};
#[allow(unused_imports)]
use crate::response_laws::{law_usage_is_reported, reports};
#[allow(unused_imports)]
use crate::sse::{
    chunks, event_lines, event_texts, is_done, lemma_chunks_append, lemma_first_line_carries,
    lemma_no_line_feed_is_block, lemma_no_line_feed_is_line, line_payloads, lines, payload,
    payloads, read_line, stream_chunks, stream_text, without_return,
};
#[allow(unused_imports)]
use crate::stream::{
    call_at, call_event, calls_after, calls_below, calls_in_order, created_event, delta_index,
    is_finished, mapped_stream, progress, response_events, stream_counts_fit, Call,
};
#[allow(unused_imports)]
use crate::text::{
    is_white_space, lemma_trimmed_without_end, trim_end, trim_start, trimmed, utf8_error,
};
use vstd::prelude::*;
use vstd::utf8::*;

verus! {

/// The first of a chunk's choices.
pub open spec fn choice_of(chunk: Tree) -> Option<Tree> {
    match chunk.get("choices"@) {
        Some(Tree::List(choices)) => if choices.len() > 0 {
            Some(choices[0])
        } else {
            None
        },
        _ => None,
    }
}

/// A member of what the first of a chunk's choices adds.
pub open spec fn added_at(chunk: Tree, key: Seq<char>) -> Option<Tree> {
    match choice_of(chunk) {
        Some(choice) => match choice.get("delta"@) {
            Some(delta) => delta.get(key),
            None => None,
        },
        None => None,
    }
}

/// What a chunk adds to the text.
pub open spec fn words(chunk: Tree) -> Seq<char> {
    match added_at(chunk, "content"@) {
        Some(Tree::Text(content)) => content,
        _ => Seq::empty(),
    }
}

/// What a chunk adds to the calls.
pub open spec fn call_deltas(chunk: Tree) -> Seq<Tree> {
    match added_at(chunk, "tool_calls"@) {
        Some(Tree::List(deltas)) => deltas,
        _ => Seq::empty(),
    }
}

/// Whether a chunk says that its message is complete.
pub open spec fn completes(chunk: Tree) -> bool {
    choice_of(chunk) matches Some(choice) && (choice.get("finish_reason"@) == Some(
        Tree::Text("stop"@),
    ) || choice.get("finish_reason"@) == Some(Tree::Text("length"@)) || choice.get(
        "finish_reason"@,
    ) == Some(Tree::Text("tool_calls"@)))
}

/// What chunks add to the text, one after the other.
pub open spec fn all_words(chunks: Seq<Tree>) -> Seq<char>
    decreases chunks.len(),
{
    if chunks.len() == 0 {
        Seq::empty()
    } else {
        all_words(chunks.drop_last()) + words(chunks.last())
    }
}

/// What chunks add to the calls, one after the other.
pub open spec fn all_call_deltas(chunks: Seq<Tree>) -> Seq<Tree>
    decreases chunks.len(),
{
    if chunks.len() == 0 {
        Seq::empty()
    } else {
        all_call_deltas(chunks.drop_last()) + call_deltas(chunks.last())
    }
}

/// Whether a delta belongs to the call at a position: the one it gives as an integer, or the first.
pub open spec fn belongs_to(delta: Tree, index: usize) -> bool {
    match delta.get("index"@) {
        Some(Tree::Int(n)) => if 0 <= n <= u64::MAX {
            index == (n as u64) as usize
        } else {
            index == 0
        },
        _ => index == 0,
    }
}

/// The text that a delta gives as the identifier of its call.
pub open spec fn id_in(delta: Tree) -> Option<Seq<char>> {
    match delta.get("id"@) {
        Some(Tree::Text(id)) => Some(id),
        _ => None,
    }
}

/// The text that a delta gives as a member of its function.
pub open spec fn function_text_in(delta: Tree, key: Seq<char>) -> Option<Seq<char>> {
    match delta.get("function"@) {
        Some(function) => match function.get(key) {
            Some(Tree::Text(text)) => Some(text),
            _ => None,
        },
        None => None,
    }
}

/// The fragments of a call's arguments, one after the other.
pub open spec fn argument_fragments(deltas: Seq<Tree>, index: usize) -> Seq<char>
    decreases deltas.len(),
{
    if deltas.len() == 0 {
        Seq::empty()
    } else if belongs_to(deltas.last(), index) {
        argument_fragments(deltas.drop_last(), index) + match function_text_in(
            deltas.last(),
            "arguments"@,
        ) {
            Some(fragment) => fragment,
            None => Seq::empty(),
        }
    } else {
        argument_fragments(deltas.drop_last(), index)
    }
}

/// Whether a name is that of the call at a position: the last that a delta of the call gives, or
/// none where no delta gives one.
pub open spec fn is_last_name(deltas: Seq<Tree>, index: usize, name: Seq<char>) -> bool {
    ||| exists|i: int|
        0 <= i < deltas.len() && belongs_to(#[trigger] deltas[i], index) && function_text_in(
            deltas[i],
            "name"@,
        ) == Some(name) && no_name_from(deltas, index, i + 1)
    ||| name.len() == 0 && no_name_from(deltas, index, 0)
}

/// From a position on no delta gives the name of the call.
pub open spec fn no_name_from(deltas: Seq<Tree>, index: usize, from: int) -> bool {
    forall|i: int|
        from <= i < deltas.len() && belongs_to(#[trigger] deltas[i], index) ==> function_text_in(
            deltas[i],
            "name"@,
        ) is None
}

/// Whether an identifier is that of the call at a position: the last that a delta of the call
/// gives, or none where no delta gives one.
pub open spec fn is_last_id(deltas: Seq<Tree>, index: usize, id: Seq<char>) -> bool {
    ||| exists|i: int|
        0 <= i < deltas.len() && belongs_to(#[trigger] deltas[i], index) && id_in(deltas[i])
            == Some(id) && no_id_from(deltas, index, i + 1)
    ||| id.len() == 0 && no_id_from(deltas, index, 0)
}

/// From a position on no delta gives the identifier of the call.
pub open spec fn no_id_from(deltas: Seq<Tree>, index: usize, from: int) -> bool {
    forall|i: int|
        from <= i < deltas.len() && belongs_to(#[trigger] deltas[i], index) ==> id_in(deltas[i])
            is None
}

/// A delta belongs to the position that it is taken in at.
proof fn lemma_delta_index(delta: Tree, index: usize)
    ensures
        belongs_to(delta, index) <==> delta_index(delta) == index,
{
}

/// The call at a position has the last name and the last identifier that the deltas give it,
/// whatever else these deltas hold, and the fragments of its arguments in a row.
pub proof fn law_calls_are_put_together(deltas: Seq<Tree>, index: usize)
    ensures
        calls_after(Map::empty(), deltas).contains_key(index) <==> exists|i: int|
            0 <= i < deltas.len() && belongs_to(#[trigger] deltas[i], index),
        is_last_name(deltas, index, call_at(calls_after(Map::empty(), deltas), index).name),
        is_last_id(deltas, index, call_at(calls_after(Map::empty(), deltas), index).id),
        call_at(calls_after(Map::empty(), deltas), index).arguments == argument_fragments(
            deltas,
            index,
        ),
    decreases deltas.len(),
{
    let after = calls_after(Map::empty(), deltas);
    if deltas.len() > 0 {
        let shorter = deltas.drop_last();
        let last = deltas.len() - 1;
        let delta = deltas.last();
        let before = calls_after(Map::empty(), shorter);
        law_calls_are_put_together(shorter, index);
        lemma_delta_index(delta, index);
        assert(after == before.insert(
            delta_index(delta),
            call_at(before, delta_index(delta)).and(delta),
        ));
        if exists|i: int| 0 <= i < shorter.len() && belongs_to(#[trigger] shorter[i], index) {
            let i = choose|i: int| 0 <= i < shorter.len() && belongs_to(#[trigger] shorter[i], index);
            assert(belongs_to(deltas[i], index));
        }
        if exists|i: int| 0 <= i < deltas.len() && belongs_to(#[trigger] deltas[i], index) {
            let i = choose|i: int| 0 <= i < deltas.len() && belongs_to(#[trigger] deltas[i], index);
            if i < last {
                assert(belongs_to(shorter[i], index));
            }
        }
        let name = call_at(before, index).name;
        let id = call_at(before, index).id;
        if belongs_to(delta, index) && function_text_in(delta, "name"@) is Some {
            assert(belongs_to(deltas[last], index));
            assert(no_name_from(deltas, index, last + 1));
        } else {
            lemma_last_name_stays(deltas, index, name);
        }
        if belongs_to(delta, index) && id_in(delta) is Some {
            assert(belongs_to(deltas[last], index));
            assert(no_id_from(deltas, index, last + 1));
        } else {
            lemma_last_id_stays(deltas, index, id);
        }
        assert(call_at(after, index).arguments =~= argument_fragments(deltas, index));
    }
}

/// A delta that gives a call no name leaves it the one it has.
proof fn lemma_last_name_stays(deltas: Seq<Tree>, index: usize, name: Seq<char>)
    requires
        deltas.len() > 0,
        is_last_name(deltas.drop_last(), index, name),
        belongs_to(deltas.last(), index) ==> function_text_in(deltas.last(), "name"@) is None,
    ensures
        is_last_name(deltas, index, name),
{
    let shorter = deltas.drop_last();
    let from: int = if exists|i: int|
        0 <= i < shorter.len() && belongs_to(#[trigger] shorter[i], index) && function_text_in(
            shorter[i],
            "name"@,
        ) == Some(name) && no_name_from(shorter, index, i + 1) {
        let i = choose|i: int|
            0 <= i < shorter.len() && belongs_to(#[trigger] shorter[i], index) && function_text_in(
                shorter[i],
                "name"@,
            ) == Some(name) && no_name_from(shorter, index, i + 1);
        assert(deltas[i] == shorter[i]);
        i + 1
    } else {
        0
    };
    assert forall|i: int| from <= i < deltas.len() && belongs_to(
        #[trigger] deltas[i],
        index,
    ) implies function_text_in(deltas[i], "name"@) is None by {
        if i < shorter.len() {
            assert(shorter[i] == deltas[i]);
        }
    }
    assert(no_name_from(deltas, index, from));
}

/// A delta that gives a call no identifier leaves it the one it has.
proof fn lemma_last_id_stays(deltas: Seq<Tree>, index: usize, id: Seq<char>)
    requires
        deltas.len() > 0,
        is_last_id(deltas.drop_last(), index, id),
        belongs_to(deltas.last(), index) ==> id_in(deltas.last()) is None,
    ensures
        is_last_id(deltas, index, id),
{
    let shorter = deltas.drop_last();
    let from: int = if exists|i: int|
        0 <= i < shorter.len() && belongs_to(#[trigger] shorter[i], index) && id_in(shorter[i])
            == Some(id) && no_id_from(shorter, index, i + 1) {
        let i = choose|i: int|
            0 <= i < shorter.len() && belongs_to(#[trigger] shorter[i], index) && id_in(shorter[i])
                == Some(id) && no_id_from(shorter, index, i + 1);
        assert(deltas[i] == shorter[i]);
        i + 1
    } else {
        0
    };
    assert forall|i: int| from <= i < deltas.len() && belongs_to(
        #[trigger] deltas[i],
        index,
    ) implies id_in(deltas[i]) is None by {
        if i < shorter.len() {
            assert(shorter[i] == deltas[i]);
        }
    }
    assert(no_id_from(deltas, index, from));
}

/// The positions of the calls below a bound, in ascending order.
proof fn lemma_positions(calls: Map<usize, Call>, bound: nat) -> (indices: Seq<usize>)
    requires
        bound <= usize::MAX + 1,
    ensures
        forall|j: int, k: int| 0 <= j < k < indices.len() ==> indices[j] < indices[k],
        forall|k: int| 0 <= k < indices.len() ==> #[trigger] indices[k] < bound,
        forall|index: usize|
            #[trigger] indices.contains(index) <==> index < bound && calls.contains_key(index),
        calls_below(calls, bound) == indices.map_values(|index: usize| calls[index]),
    decreases bound,
{
    if bound == 0 {
        let none = Seq::<usize>::empty();
        assert(calls_below(calls, bound) =~= none.map_values(|index: usize| calls[index]));
        none
    } else {
        let before = lemma_positions(calls, (bound - 1) as nat);
        let last = (bound - 1) as usize;
        if calls.contains_key(last) {
            let indices = before.push(last);
            assert forall|index: usize| #[trigger] indices.contains(index) <==> index < bound
                && calls.contains_key(index) by {
                if before.contains(index) {
                    let k = choose|k: int| 0 <= k < before.len() && before[k] == index;
                    assert(indices[k] == index);
                }
                if index == last {
                    assert(indices[before.len() as int] == index);
                }
                if indices.contains(index) {
                    let k = choose|k: int| 0 <= k < indices.len() && indices[k] == index;
                    if k < before.len() {
                        assert(before[k] == index);
                        assert(before.contains(index));
                    }
                }
            }
            assert(calls_below(calls, bound) =~= indices.map_values(|index: usize| calls[index]));
            indices
        } else {
            assert forall|index: usize| #[trigger] before.contains(index) <==> index < bound
                && calls.contains_key(index) by {}
            before
        }
    }
}

/// The chunks of a message that is not complete yet.
spec fn unfinished(chunks: Seq<Tree>) -> Seq<Tree>
    decreases chunks.len(),
{
    if chunks.len() == 0 || completes(chunks.last()) {
        Seq::empty()
    } else {
        unfinished(chunks.drop_last()).push(chunks.last())
    }
}

/// What has been taken in of a message is what its chunks add.
proof fn lemma_unfinished(chunks: Seq<Tree>)
    ensures
        progress(chunks).text == all_words(unfinished(chunks)),
        progress(chunks).calls == calls_after(Map::empty(), all_call_deltas(unfinished(chunks))),
    decreases chunks.len(),
{
    if chunks.len() > 0 {
        lemma_unfinished(chunks.drop_last());
        lemma_taken_in(chunks.drop_last(), chunks.last());
        let open = unfinished(chunks.drop_last());
        assert(open.push(chunks.last()).drop_last() =~= open);
    }
}

/// What a chunk is taken in with.
proof fn lemma_taken_in(chunks: Seq<Tree>, last: Tree)
    requires
        progress(chunks).text == all_words(unfinished(chunks)),
        progress(chunks).calls == calls_after(Map::empty(), all_call_deltas(unfinished(chunks))),
    ensures
        ({
            let noted = progress(chunks).named(last).opened().metered(last);
            let all = unfinished(chunks).push(last);
            &&& first_choice(last) == choice_of(last)
            &&& choice_of(last) is None ==> progress(chunks).text == all_words(all)
                && progress(chunks).calls == calls_after(Map::empty(), all_call_deltas(all))
                && !completes(last)
            &&& choice_of(last) matches Some(choice) ==> {
                let called = noted.said(choice).called(choice);
                &&& called.text == all_words(all)
                &&& called.calls == calls_after(Map::empty(), all_call_deltas(all))
                &&& is_finished(choice) <==> completes(last)
            }
        }),
{
    let open = unfinished(chunks);
    let all = open.push(last);
    assert(all.drop_last() =~= open);
    law_deltas_may_be_split(Map::empty(), all_call_deltas(open), call_deltas(last));
    assert(all_words(open) + Seq::<char>::empty() =~= all_words(open));
    assert(all_call_deltas(open) + Seq::<Tree>::empty() =~= all_call_deltas(open));
}

/// The chunks behind a completed message, none of which completes another, are unfinished.
proof fn lemma_unfinished_behind(before: Seq<Tree>, open: Seq<Tree>)
    requires
        before.len() == 0 || completes(before.last()),
        forall|i: int| 0 <= i < open.len() ==> !completes(#[trigger] open[i]),
    ensures
        unfinished(before + open) == open,
    decreases open.len(),
{
    let all = before + open;
    if open.len() == 0 {
        assert(all =~= before);
        assert(unfinished(all) =~= open);
    } else {
        assert(all.drop_last() =~= before + open.drop_last());
        assert(all.last() == open.last());
        assert(!completes(open[open.len() - 1]));
        assert forall|i: int| 0 <= i < open.drop_last().len() implies !completes(
            #[trigger] open.drop_last()[i],
        ) by {
            assert(!completes(open[i]));
        }
        lemma_unfinished_behind(before, open.drop_last());
        assert(unfinished(all) =~= open);
    }
}

/// The event that adds to the text.
pub open spec fn delta_of(content: Seq<char>) -> Tree {
    Tree::object().with("type"@, Tree::Text("response.output_text.delta"@)).with(
        "delta"@,
        Tree::Text(content),
    )
}

/// The event that gives a whole message.
pub open spec fn message_of(text: Seq<char>) -> Tree {
    Tree::object().with("type"@, Tree::Text("response.output_item.done"@)).with(
        "item"@,
        Tree::object().with("type"@, Tree::Text("message"@)).with(
            "role"@,
            Tree::Text("assistant"@),
        ).with(
            "content"@,
            Tree::List(
                seq![
                    Tree::object().with("type"@, Tree::Text("output_text"@)).with(
                        "text"@,
                        Tree::Text(text),
                    ),
                ],
            ),
        ),
    )
}

/// The event that gives a whole call.
pub open spec fn call_of(name: Seq<char>, arguments: Seq<char>, id: Seq<char>) -> Tree {
    Tree::object().with("type"@, Tree::Text("response.output_item.done"@)).with(
        "item"@,
        Tree::object().with("type"@, Tree::Text("function_call"@)).with(
            "name"@,
            Tree::Text(name),
        ).with("arguments"@, Tree::Text(arguments)).with("call_id"@, Tree::Text(id)),
    )
}

/// Whether an event gives the call at a position as the deltas put it together: with the last name
/// and the last identifier that they give it, and all fragments of its arguments.
pub open spec fn gives_call(event: Tree, deltas: Seq<Tree>, index: usize) -> bool {
    exists|name: Seq<char>, id: Seq<char>| #[trigger]
        is_last_name(deltas, index, name) && #[trigger] is_last_id(deltas, index, id) && event
            == call_of(name, argument_fragments(deltas, index), id)
}

/// A chunk that completes no message adds nothing to the events but the text in it, empty or not,
/// and leaves those before it as they are.
pub proof fn law_other_chunks_add_their_text(before: Seq<Tree>, chunk: Tree)
    requires
        !completes(chunk),
    ensures
        ({
            let earlier = response_events(before);
            let later = response_events(before.push(chunk));
            let kept = earlier.len() - 1;
            &&& forall|i: int| 1 <= i < kept ==> #[trigger] later[i] == earlier[i]
            &&& kept >= 1
            &&& match added_at(chunk, "content"@) {
                Some(Tree::Text(content)) => later.len() == earlier.len() + 1 && later[kept]
                    == delta_of(content),
                _ => later.len() == earlier.len(),
            }
        }),
{
    let all = before.push(chunk);
    assert(all.drop_last() =~= before);
    lemma_unfinished(before);
    lemma_taken_in(before, chunk);
    lemma_opened(before);
}

/// Some chunk has opened the response.
proof fn lemma_opened(chunks: Seq<Tree>)
    ensures
        progress(chunks).created <==> chunks.len() > 0,
        progress(chunks).created <==> progress(chunks).events.len() > 0,
        chunks.len() > 0 ==> progress(chunks).events[0] == created_event(
            match chunks[0].get("id"@) {
                Some(Tree::Text(id)) => id,
                _ => "chatcmpl-proxy"@,
            },
        ),
    decreases chunks.len(),
{
    if chunks.len() > 0 {
        lemma_opened(chunks.drop_last());
    }
}

/// A chunk that completes a message gives all of it, once: the text in the chunk, then everything
/// that was said since the last completed message, unless that is nothing, and then every call that
/// any of these chunks told of, in the ascending order of their positions. The events before it stay
/// as they are. The result is the positions of the calls.
pub proof fn law_completed_messages_are_given(before: Seq<Tree>, open: Seq<Tree>, chunk: Tree) -> (
    indices: Seq<usize>)
    requires
        before.len() == 0 || completes(before.last()),
        forall|i: int| 0 <= i < open.len() ==> !completes(#[trigger] open[i]),
        completes(chunk),
    ensures
        ({
            let earlier = response_events(before + open);
            let later = response_events((before + open).push(chunk));
            let kept = earlier.len() - 1;
            let text = all_words(open.push(chunk));
            let deltas = all_call_deltas(open.push(chunk));
            let heard: int = if added_at(chunk, "content"@) matches Some(Tree::Text(_)) {
                1
            } else {
                0
            };
            let said: int = if text.len() > 0 { 1 } else { 0 };
            &&& kept >= 1
            &&& later.len() == kept + heard + said + indices.len() + 1
            &&& forall|i: int| 1 <= i < kept ==> #[trigger] later[i] == earlier[i]
            &&& heard == 1 ==> later[kept] == delta_of(words(chunk))
            &&& said == 1 ==> later[kept + heard] == message_of(text)
            &&& forall|j: int, k: int| 0 <= j < k < indices.len() ==> indices[j] < indices[k]
            &&& forall|index: usize| #[trigger]
                indices.contains(index) <==> exists|i: int|
                    0 <= i < deltas.len() && belongs_to(#[trigger] deltas[i], index)
            &&& forall|k: int|
                0 <= k < indices.len() ==> gives_call(
                    later[kept + heard + said + k],
                    deltas,
                    #[trigger] indices[k],
                )
        }),
{
    let chunks = before + open;
    let all = chunks.push(chunk);
    assert(all.drop_last() =~= chunks);
    lemma_unfinished(chunks);
    lemma_taken_in(chunks, chunk);
    lemma_opened(chunks);
    lemma_unfinished_behind(before, open);
    let deltas = all_call_deltas(open.push(chunk));
    let text = all_words(open.push(chunk));
    let choice = choice_of(chunk)->0;
    let noted = progress(chunks).named(chunk).opened().metered(chunk);
    let called = noted.said(choice).called(choice);
    let indices = lemma_positions(called.calls, (usize::MAX + 1) as nat);
    let later = response_events(all);
    let heard: int = if added_at(chunk, "content"@) matches Some(Tree::Text(_)) {
        1
    } else {
        0
    };
    let said: int = if text.len() > 0 { 1 } else { 0 };
    let kept = response_events(chunks).len() - 1;
    let items = called.item_events();
    assert(noted.events.len() == kept);
    assert(called.events.len() == kept + heard);
    assert(items.len() == said + indices.len());
    assert(later =~= (called.events + items).push(later.last()));
    if heard == 1 {
        assert(later[kept] == called.events[kept]);
    }
    if said == 1 {
        assert(later[kept + heard] == items[0]);
    }
    assert forall|index: usize| #[trigger] indices.contains(index) <==> exists|i: int|
        0 <= i < deltas.len() && belongs_to(#[trigger] deltas[i], index) by {
        law_calls_are_put_together(deltas, index);
    }
    assert forall|k: int| 0 <= k < indices.len() implies gives_call(
        later[kept + heard + said + k],
        deltas,
        #[trigger] indices[k],
    ) by {
        let index = indices[k];
        law_calls_are_put_together(deltas, index);
        assert(indices.contains(index));
        let call = called.calls[index];
        assert(call == call_at(called.calls, index));
        assert(calls_in_order(called.calls)[k] == call);
        assert(items[said + k] == call_event(call));
        assert(later[kept + heard + said + k] == items[said + k]);
        assert(is_last_name(deltas, index, call.name) && is_last_id(deltas, index, call.id));
    }
    indices
}

/// The first event opens the response with the identifier of the first chunk, or the one that
/// stands for none.
pub proof fn law_first_event_opens(chunks: Seq<Tree>)
    ensures
        response_events(chunks).len() >= 2,
        response_events(chunks)[0] == Tree::object().with(
            "type"@,
            Tree::Text("response.created"@),
        ).with(
            "response"@,
            Tree::object().with(
                "id"@,
                if chunks.len() > 0 && chunks[0].get("id"@) matches Some(Tree::Text(_)) {
                    chunks[0].get("id"@)->0
                } else {
                    Tree::Text("chatcmpl-proxy"@)
                },
            ),
        ),
{
    lemma_opened(chunks);
}

/// A stream without chunks is opened and completed.
pub proof fn law_silence_is_answered()
    ensures
        response_events(Seq::empty()).len() == 2,
{
}

/// Chunks without usage leave the last usage as it is.
proof fn lemma_usage_stays(chunks: Seq<Tree>, more: Seq<Tree>)
    requires
        forall|i: int| 0 <= i < more.len() ==> (#[trigger] more[i]).get("usage"@) is None,
    ensures
        progress(chunks + more).usage == progress(chunks).usage,
    decreases more.len(),
{
    let all = chunks + more;
    if more.len() == 0 {
        assert(all =~= chunks);
    } else {
        assert(all.drop_last() =~= chunks + more.drop_last());
        assert(all.last() == more.last());
        assert(more[more.len() - 1].get("usage"@) is None);
        assert forall|i: int| 0 <= i < more.drop_last().len() implies (
        #[trigger] more.drop_last()[i]).get("usage"@) is None by {
            assert(more[i].get("usage"@) is None);
        }
        lemma_usage_stays(chunks, more.drop_last());
    }
}

/// Chunks without an identifier leave the last one as it is.
proof fn lemma_id_stays(chunks: Seq<Tree>, more: Seq<Tree>)
    requires
        forall|i: int|
            0 <= i < more.len() ==> !((#[trigger] more[i]).get("id"@) matches Some(Tree::Text(_))),
    ensures
        progress(chunks + more).id == progress(chunks).id,
    decreases more.len(),
{
    let all = chunks + more;
    if more.len() == 0 {
        assert(all =~= chunks);
    } else {
        assert(all.drop_last() =~= chunks + more.drop_last());
        assert(all.last() == more.last());
        assert(!(more[more.len() - 1].get("id"@) matches Some(Tree::Text(_))));
        assert forall|i: int| 0 <= i < more.drop_last().len() implies !((
        #[trigger] more.drop_last()[i]).get("id"@) matches Some(Tree::Text(_))) by {
            assert(!(more[i].get("id"@) matches Some(Tree::Text(_))));
        }
        lemma_id_stays(chunks, more.drop_last());
    }
}

/// The last event completes the response, and holds an identifier and a usage report.
pub proof fn law_last_event_completes(chunks: Seq<Tree>)
    ensures
        response_events(chunks).last().get("type"@) == Some(Tree::Text("response.completed"@)),
        response_events(chunks).last().get("response"@) matches Some(response) && response.get(
            "id"@,
        ) is Some && response.get("usage"@) is Some && (forall|key: Seq<char>| #[trigger]
            response->Object_0.contains_key(key) ==> key == "id"@ || key == "usage"@),
        forall|key: Seq<char>| #[trigger]
            response_events(chunks).last()->Object_0.contains_key(key) ==> key == "type"@ || key
                == "response"@,
{
    lemma_keys_of_last_events();
}

/// The keys of the last event differ.
proof fn lemma_keys_of_last_events()
    ensures
        "type"@ != "response"@,
        "id"@ != "usage"@,
{
    reveal_strlit("type");
    assert("type"@.len() == 4);
    reveal_strlit("response");
    assert("response"@.len() == 8);
    reveal_strlit("id");
    assert("id"@.len() == 2);
    reveal_strlit("usage");
    assert("usage"@.len() == 5);
}

/// The usage that a stream reports is that of the last chunk with any, whatever else that chunk
/// holds, and nothing where no chunk has any. The counts that have to fit are those of that usage.
pub proof fn law_last_usage_counts(before: Seq<Tree>, chunk: Tree, after: Seq<Tree>)
    requires
        forall|i: int| 0 <= i < after.len() ==> (#[trigger] after[i]).get("usage"@) is None,
    ensures
        chunk.get("usage"@) matches Some(usage) ==> (response_events(
            before.push(chunk) + after,
        ).last().get("response"@) matches Some(response) && (response.get("usage"@) matches Some(
            report,
        ) && reports(report, usage)) && progress(before.push(chunk) + after).usage == Some(usage)),
        response_events(after).last().get("response"@) matches Some(response) && (response.get(
            "usage"@,
        ) matches Some(report) && reports(report, Tree::Null)),
        progress(after).usage is None,
{
    lemma_keys_of_last_events();
    let chunks = before.push(chunk);
    assert(chunks.drop_last() =~= before);
    lemma_usage_stays(chunks, after);
    lemma_usage_stays(Seq::empty(), after);
    assert(Seq::<Tree>::empty() + after =~= after);
    law_usage_is_reported(
        match chunk.get("usage"@) {
            Some(usage) => usage,
            None => Tree::Null,
        },
    );
}

/// The identifier that a stream is completed with is that of the last chunk with one, whatever else
/// that chunk holds, or the one that stands for none.
pub proof fn law_last_identifier_counts(
    before: Seq<Tree>,
    chunk: Tree,
    id: Seq<char>,
    after: Seq<Tree>,
)
    requires
        forall|i: int|
            0 <= i < after.len() ==> !((#[trigger] after[i]).get("id"@) matches Some(Tree::Text(_))),
    ensures
        chunk.get("id"@) == Some(Tree::Text(id)) ==> (response_events(
            before.push(chunk) + after,
        ).last().get("response"@) matches Some(response) && response.get("id"@) == Some(
            Tree::Text(id),
        )),
        response_events(after).last().get("response"@) matches Some(response) && response.get(
            "id"@,
        ) == Some(Tree::Text("chatcmpl-proxy"@)),
{
    lemma_keys_of_last_events();
    let chunks = before.push(chunk);
    assert(chunks.drop_last() =~= before);
    lemma_id_stays(chunks, after);
    lemma_id_stays(Seq::empty(), after);
    assert(Seq::<Tree>::empty() + after =~= after);
}

/// The documents that a payload gives: what is read from it, unless it marks an end or nothing can
/// be read from it.
pub open spec fn documents(payload: Seq<char>) -> Seq<Tree> {
    if is_done(payload) {
        Seq::empty()
    } else {
        match parsed_str(payload) {
            Some(document) => seq![document],
            None => Seq::empty(),
        }
    }
}

/// A payload marks an end exactly where it is `[DONE]` between white space. The result is what
/// stands before the mark and behind it, where it does.
pub proof fn law_end_marks(payload: Seq<char>, a: Seq<char>, b: Seq<char>) -> (around: (
    Seq<char>,
    Seq<char>,
))
    ensures
        is_blank(a) && is_blank(b) ==> is_done(a + "[DONE]"@ + b),
        is_done(payload) ==> payload == around.0 + "[DONE]"@ + around.1 && is_blank(around.0)
            && is_blank(around.1),
{
    reveal_strlit("[DONE]");
    let mark = "[DONE]"@;
    if is_blank(a) && is_blank(b) {
        lemma_trimmed_around(a, mark, b);
    }
    let (front, inner) = lemma_trim_start(payload);
    let back = lemma_trim_end(inner);
    assert(payload =~= front + trimmed(payload) + back);
    (front, back)
}

/// Nothing but white space.
pub open spec fn is_blank(text: Seq<char>) -> bool {
    forall|i: int| 0 <= i < text.len() ==> is_white_space(#[trigger] text[i])
}

/// What is taken from the start of a text is white space.
proof fn lemma_trim_start(text: Seq<char>) -> (parts: (Seq<char>, Seq<char>))
    ensures
        text == parts.0 + parts.1,
        parts.1 == trim_start(text),
        is_blank(parts.0),
    decreases text.len(),
{
    if text.len() > 0 && is_white_space(text[0]) {
        let (front, inner) = lemma_trim_start(text.drop_first());
        let longer = seq![text[0]] + front;
        assert(text =~= seq![text[0]] + text.drop_first());
        assert(text =~= longer + inner);
        assert forall|i: int| 0 <= i < longer.len() implies is_white_space(#[trigger] longer[i]) by {
            if i > 0 {
                assert(longer[i] == front[i - 1]);
            }
        }
        (longer, inner)
    } else {
        assert(text =~= Seq::<char>::empty() + text);
        (Seq::empty(), text)
    }
}

/// What is taken from the end of a text is white space.
proof fn lemma_trim_end(text: Seq<char>) -> (back: Seq<char>)
    ensures
        text == trim_end(text) + back,
        is_blank(back),
    decreases text.len(),
{
    if text.len() > 0 && is_white_space(text.last()) {
        let back = lemma_trim_end(text.drop_last());
        let longer = back.push(text.last());
        assert(text =~= text.drop_last().push(text.last()));
        assert(text =~= trim_end(text) + longer);
        longer
    } else {
        assert(text =~= text + Seq::<char>::empty());
        Seq::empty()
    }
}

/// White space around the mark is trimmed away.
proof fn lemma_trimmed_around(a: Seq<char>, mark: Seq<char>, b: Seq<char>)
    requires
        is_blank(a),
        is_blank(b),
        mark.len() > 0,
        !is_white_space(mark[0]),
        !is_white_space(mark.last()),
    ensures
        trimmed(a + mark + b) == mark,
    decreases a.len() + b.len(),
{
    let text = a + mark + b;
    if b.len() > 0 {
        let shorter = b.drop_last();
        assert forall|i: int| 0 <= i < shorter.len() implies is_white_space(#[trigger] shorter[i]) by {
            assert(is_white_space(b[i]));
        }
        assert(is_white_space(b[b.len() - 1]));
        lemma_trimmed_around(a, mark, shorter);
        lemma_trimmed_without_end(a + mark + shorter, b.last());
        assert(text =~= (a + mark + shorter).push(b.last()));
    } else if a.len() > 0 {
        let shorter = a.drop_first();
        assert(is_white_space(a[0]));
        assert forall|i: int| 0 <= i < shorter.len() implies is_white_space(#[trigger] shorter[i]) by {
            assert(is_white_space(a[i + 1]));
        }
        lemma_trimmed_around(shorter, mark, b);
        assert(text.drop_first() =~= shorter + mark + b);
        assert(text[0] == a[0]);
    } else {
        assert(text =~= mark);
    }
}

/// A chat stream says what its data lines carry, in their order: the first line gives the document
/// of its payload, and the rest what the rest says. A carriage return before the line feed is not
/// part of the line, unless a blank line follows at once. Any other line gives nothing.
pub proof fn law_lines_are_read_in_order(carried: Seq<char>, line: Seq<char>, rest: Seq<char>)
    requires
        !carried.contains('\n'),
        !line.contains('\n'),
    ensures
        stream_chunks(Seq::empty()) == Seq::<Tree>::empty(),
        carried.len() == 0 || carried.last() != '\r' ==> stream_chunks(
            "data: "@ + carried + "\n"@ + rest,
        ) == documents(carried) + stream_chunks(rest),
        rest.len() == 0 || rest[0] != '\n' ==> stream_chunks("data: "@ + carried + "\r\n"@ + rest)
            == documents(carried) + stream_chunks(rest),
        stream_chunks("data: "@ + carried) == documents(carried),
        !("data: "@.is_prefix_of(line)) ==> stream_chunks(line + "\n"@ + rest) == stream_chunks(rest)
            && stream_chunks(line) == Seq::<Tree>::empty(),
{
    reveal_strlit("data: ");
    reveal_strlit("\n");
    reveal_strlit("\r\n");
    let data = "data: "@ + carried;
    let returned = data.push('\r');
    assert forall|i: int| 0 <= i < data.len() implies data[i] != '\n' by {
        if i >= 6 {
            assert(carried.contains(carried[i - 6]));
        }
    }
    assert forall|i: int| 0 <= i < returned.len() implies returned[i] != '\n' by {
        if i < data.len() {
            assert(returned[i] == data[i]);
        }
    }
    assert(data.take(6) =~= "data: "@);
    assert(data.skip(6) =~= carried);
    assert(lines(Seq::<char>::empty()) =~= Seq::empty());
    assert(payloads(event_lines(Seq::<char>::empty())) =~= Seq::empty());
    lemma_documents(carried);
    lemma_first_line_carries(data, rest);
    lemma_chunks_append(line_payloads(data), payloads(event_lines(rest)));
    if carried.len() == 0 || carried.last() != '\r' {
        assert(data.last() != '\r');
        assert(read_line(data, rest) == data);
    }
    lemma_first_line_carries(returned, rest);
    assert(returned.drop_last() =~= data);
    assert("data: "@ + carried + "\r\n"@ + rest =~= returned + "\n"@ + rest);
    lemma_single_line(data);
    if !("data: "@.is_prefix_of(line)) {
        lemma_no_data(line);
        lemma_no_data(without_return(line));
        lemma_first_line_carries(line, rest);
        lemma_single_line(line);
        assert(line_payloads(read_line(line, rest)) + payloads(event_lines(rest)) =~= payloads(
            event_lines(rest),
        ));
    }
}

/// What a payload gives.
proof fn lemma_documents(carried: Seq<char>)
    ensures
        chunks(seq![carried]) == documents(carried),
{
    assert(seq![carried].drop_last() =~= Seq::empty());
    assert(chunks(seq![carried].drop_last()) =~= Seq::empty());
    assert(chunks(seq![carried]) =~= documents(carried));
}

/// A line without the prefix, or the start of one, carries nothing.
proof fn lemma_no_data(line: Seq<char>)
    requires
        !("data: "@.is_prefix_of(line)),
    ensures
        payload(line) is None,
        payload(without_return(line)) is None,
{
    reveal_strlit("data: ");
    if line.len() >= 6 && line.take(6) == "data: "@ {
        assert("data: "@ =~= line.subrange(0, 6));
    }
    let shorter = without_return(line);
    if shorter.len() >= 6 && shorter.take(6) == "data: "@ {
        assert(line.subrange(0, 6) =~= shorter.take(6));
    }
}

/// A stream of one line that does not end says what the line does.
proof fn lemma_single_line(line: Seq<char>)
    requires
        !line.contains('\n'),
    ensures
        stream_chunks(line) == chunks(line_payloads(line)),
{
    lemma_no_line_feed_is_line(line);
    lemma_no_line_feed_is_block(line);
    let read = lines(line);
    if line.len() == 0 {
        reveal_strlit("data: ");
        assert(read =~= Seq::empty());
        assert(payloads(read) =~= line_payloads(line));
    } else {
        assert(read =~= seq![line]);
        assert(read.drop_last() =~= Seq::empty());
        assert(payloads(read.drop_last()) =~= Seq::empty());
        assert(payloads(read) =~= line_payloads(line));
    }
}

/// A response stream is its events, each as a data line with its JSON and a blank line behind it.
pub proof fn law_events_are_framed(events: Seq<Tree>, event: Tree)
    ensures
        stream_text(Seq::empty()) == Seq::<char>::empty(),
        stream_text(events.push(event)) == stream_text(events) + "data: "@ + json_text(event)
            + "\n\n"@,
{
    let none = Seq::<Tree>::empty();
    assert(event_texts(none) =~= Seq::empty());
    let texts = event_texts(events.push(event));
    assert(texts.drop_last() =~= event_texts(events));
    assert(texts.last() == json_text(event));
    assert(stream_text(events.push(event)) =~= stream_text(events) + "data: "@ + json_text(event)
        + "\n\n"@);
}

/// A chat stream in UTF-8 becomes the stream of its events; any other is refused with what the
/// decoder reports. Only the counts of its last usage can stand in the way.
pub proof fn law_streams_are_translated(text: Seq<char>, body: Seq<u8>)
    ensures
        mapped_stream(encode_utf8(text)) == Ok::<Seq<u8>, TranslateFailure>(
            encode_utf8(stream_text(response_events(stream_chunks(text)))),
        ),
        stream_counts_fit(encode_utf8(text)) <==> counts_fit(progress(stream_chunks(text)).usage),
        !valid_utf8(body) ==> stream_counts_fit(body) && (mapped_stream(body) matches Err(failure)
            && failure.context == TranslateContext::DecodeStream && failure.cause == utf8_error(
            body,
        )),
{
    broadcast use {encode_utf8_decode_utf8, encode_utf8_valid_utf8};

}

}
