//! Streams: from the chunks of a chat stream to the events of a response stream.

#[allow(unused_imports)]
use crate::codec::{lemma_reads_back_deeper, lemma_with_reads_back, reads_back, NESTING_LIMIT};
#[allow(unused_imports)]
use crate::error::TranslateFailure;
use crate::error::{TranslateContext, TranslateError};
use crate::json::Json;
#[allow(unused_imports)]
use crate::json::{
    lemma_trees_append, lemma_trees_index, lemma_trees_len, lemma_trees_push, trees, Tree,
};
use crate::response::{
    call_output_item, chat_first_choice, message_output_item, report_usage, token_counts_fit,
    DEFAULT_RESPONSE_ID,
};
#[allow(unused_imports)]
use crate::response::{
    call_item, counts_fit, first_choice, lemma_call_item_reads_back, lemma_message_item_reads_back,
    lemma_usage_reads_back, message_item, translated_view, usage_report,
};
use crate::sse::{read_chunks, write_events};
#[allow(unused_imports)]
use crate::sse::{returns_are_idle, stream_chunks, stream_text};
#[allow(unused_imports)]
use crate::text::{or_default, utf8_error};
use crate::text::{same_text, text_from_utf8};
use std::collections::BTreeMap;
use vstd::prelude::*;
use vstd::utf8::*;

verus! {

broadcast use {vstd::std_specs::btree::group_btree_axioms, vstd::laws_cmp::group_laws_cmp};

/// A function call as far as its chunks have come.
pub struct Call {
    pub id: Seq<char>,
    pub name: Seq<char>,
    pub arguments: Seq<char>,
}

impl Call {
    /// A call of which nothing has come.
    pub open spec fn nothing() -> Call {
        Call { id: Seq::empty(), name: Seq::empty(), arguments: Seq::empty() }
    }

    /// The call with what a delta adds: an identifier or a name replaces the one before, arguments
    /// are appended.
    pub open spec fn and(self, delta: Tree) -> Call {
        let function = or_default(delta.get("function"@), Tree::Null);
        Call {
            id: or_default(delta.text_at("id"@), self.id),
            name: or_default(function.text_at("name"@), self.name),
            arguments: self.arguments + or_default(function.text_at("arguments"@), Seq::empty()),
        }
    }
}

/// The position of the call that a delta belongs to.
pub open spec fn delta_index(delta: Tree) -> usize {
    or_default(delta.u64_at("index"@), 0) as usize
}

/// The call at a position.
pub open spec fn call_at(calls: Map<usize, Call>, index: usize) -> Call {
    if calls.contains_key(index) {
        calls[index]
    } else {
        Call::nothing()
    }
}

/// The calls with what the deltas add, one after the other.
pub open spec fn calls_after(calls: Map<usize, Call>, deltas: Seq<Tree>) -> Map<usize, Call>
    decreases deltas.len(),
{
    if deltas.len() == 0 {
        calls
    } else {
        let before = calls_after(calls, deltas.drop_last());
        let index = delta_index(deltas.last());
        before.insert(index, call_at(before, index).and(deltas.last()))
    }
}

/// The calls at the positions below `bound`, in ascending order.
pub open spec fn calls_below(calls: Map<usize, Call>, bound: nat) -> Seq<Call>
    decreases bound,
{
    if bound == 0 {
        Seq::empty()
    } else {
        let index = (bound - 1) as usize;
        if calls.contains_key(index) {
            calls_below(calls, (bound - 1) as nat).push(calls[index])
        } else {
            calls_below(calls, (bound - 1) as nat)
        }
    }
}

/// The calls in ascending order of their positions.
pub open spec fn calls_in_order(calls: Map<usize, Call>) -> Seq<Call> {
    calls_below(calls, (usize::MAX + 1) as nat)
}

/// The event that opens a response.
pub open spec fn created_event(id: Seq<char>) -> Tree {
    Tree::object().with("type"@, Tree::Text("response.created"@)).with(
        "response"@,
        Tree::object().with("id"@, Tree::Text(id)),
    )
}

/// The event that adds to the text.
pub open spec fn delta_event(content: Seq<char>) -> Tree {
    Tree::object().with("type"@, Tree::Text("response.output_text.delta"@)).with(
        "delta"@,
        Tree::Text(content),
    )
}

/// The event that gives a whole output item.
pub open spec fn item_event(item: Tree) -> Tree {
    Tree::object().with("type"@, Tree::Text("response.output_item.done"@)).with("item"@, item)
}

/// The event that closes a response.
pub open spec fn completed_event(id: Seq<char>, usage: Option<Tree>) -> Tree {
    Tree::object().with("type"@, Tree::Text("response.completed"@)).with(
        "response"@,
        Tree::object().with("id"@, Tree::Text(id)).with("usage"@, usage_report(usage)),
    )
}

/// The event that gives a whole call.
pub open spec fn call_event(call: Call) -> Tree {
    item_event(call_item(call.name, call.arguments, call.id))
}

/// Whether a choice says that its message is complete.
pub open spec fn is_finished(choice: Tree) -> bool {
    match choice.text_at("finish_reason"@) {
        Some(reason) => reason == "stop"@ || reason == "length"@ || reason == "tool_calls"@,
        None => false,
    }
}

/// What a choice adds to its message.
pub open spec fn choice_delta(choice: Tree) -> Tree {
    or_default(choice.get("delta"@), Tree::Null)
}

/// How far the translation of a stream has come.
#[verifier::ext_equal]
pub struct Progress {
    pub events: Seq<Tree>,
    pub created: bool,
    pub id: Seq<char>,
    pub text: Seq<char>,
    pub usage: Option<Tree>,
    pub calls: Map<usize, Call>,
}

impl Progress {
    /// Before the first chunk.
    pub open spec fn start() -> Progress {
        Progress {
            events: Seq::empty(),
            created: false,
            id: DEFAULT_RESPONSE_ID@,
            text: Seq::empty(),
            usage: None,
            calls: Map::empty(),
        }
    }

    /// With the identifier of a chunk.
    pub open spec fn named(self, chunk: Tree) -> Progress {
        Progress { id: or_default(chunk.text_at("id"@), self.id), ..self }
    }

    /// With the response opened, which happens once.
    pub open spec fn opened(self) -> Progress {
        if self.created {
            self
        } else {
            Progress { events: self.events.push(created_event(self.id)), created: true, ..self }
        }
    }

    /// With the usage of a chunk.
    pub open spec fn metered(self, chunk: Tree) -> Progress {
        match chunk.get("usage"@) {
            Some(usage) => Progress { usage: Some(usage), ..self },
            None => self,
        }
    }

    /// With the text that a choice adds.
    pub open spec fn said(self, choice: Tree) -> Progress {
        match choice_delta(choice).text_at("content"@) {
            Some(content) => Progress {
                events: self.events.push(delta_event(content)),
                text: self.text + content,
                ..self
            },
            None => self,
        }
    }

    /// With what a choice adds to the calls.
    pub open spec fn called(self, choice: Tree) -> Progress {
        match choice_delta(choice).list_at("tool_calls"@) {
            Some(deltas) => Progress { calls: calls_after(self.calls, deltas), ..self },
            None => self,
        }
    }

    /// The events that give the whole items: the text, unless it is empty, and then the calls.
    pub open spec fn item_events(self) -> Seq<Tree> {
        let said = if self.text.len() > 0 {
            seq![item_event(message_item(self.text))]
        } else {
            Seq::empty()
        };
        said + calls_in_order(self.calls).map_values(|call: Call| call_event(call))
    }

    /// With the items given, where the choice says that its message is complete.
    pub open spec fn finished(self, choice: Tree) -> Progress {
        if is_finished(choice) {
            Progress {
                events: self.events + self.item_events(),
                text: Seq::empty(),
                calls: Map::empty(),
                ..self
            }
        } else {
            self
        }
    }

    /// After a further chunk.
    pub open spec fn after(self, chunk: Tree) -> Progress {
        let noted = self.named(chunk).opened().metered(chunk);
        match first_choice(chunk) {
            Some(choice) => noted.said(choice).called(choice).finished(choice),
            None => noted,
        }
    }

    /// All events, once the stream has ended.
    pub open spec fn all_events(self) -> Seq<Tree> {
        let opened = self.opened();
        opened.events.push(completed_event(opened.id, opened.usage))
    }
}

/// How far the translation has come after the chunks.
pub open spec fn progress(chunks: Seq<Tree>) -> Progress
    decreases chunks.len(),
{
    if chunks.len() == 0 {
        Progress::start()
    } else {
        progress(chunks.drop_last()).after(chunks.last())
    }
}

/// The events that the chunks of a chat stream become.
pub open spec fn response_events(chunks: Seq<Tree>) -> Seq<Tree> {
    progress(chunks).all_events()
}

/// A function call as far as its chunks have come.
pub struct ToolCallState {
    pub id: String,
    pub name: String,
    pub arguments: String,
}

impl View for ToolCallState {
    type V = Call;

    open spec fn view(&self) -> Call {
        Call { id: self.id@, name: self.name@, arguments: self.arguments@ }
    }
}

impl ToolCallState {
    /// A call of which nothing has come.
    pub fn new() -> (state: ToolCallState)
        ensures
            state@ == Call::nothing(),
    {
        ToolCallState { id: String::new(), name: String::new(), arguments: String::new() }
    }

    /// Takes in what a delta adds.
    pub fn take_in(&mut self, delta: &Json)
        ensures
            final(self)@ == old(self)@.and(delta@),
    {
        if let Some(id) = delta.text_at("id") {
            self.id = id.to_owned();
        }
        if let Some(function) = delta.get("function") {
            if let Some(name) = function.text_at("name") {
                self.name = name.to_owned();
            }
            if let Some(arguments) = function.text_at("arguments") {
                self.arguments.append(arguments);
            }
        }
        assert(self@.arguments =~= old(self)@.and(delta@).arguments);
    }
}

/// The calls as far as their chunks have come.
pub open spec fn calls_view(calls: Map<usize, ToolCallState>) -> Map<usize, Call> {
    calls.map_values(|state: ToolCallState| state@)
}

/// The position of the call that a delta belongs to.
fn index_of_delta(delta: &Json) -> (index: usize)
    ensures
        index == delta_index(delta@),
{
    let index: u64 = delta.u64_at("index").unwrap_or(0);
    #[verifier::truncate]
    (index as usize)
}

/// Takes in what a delta adds to the call that it belongs to.
fn take_in_delta(calls: &mut BTreeMap<usize, ToolCallState>, delta: &Json)
    ensures
        calls_view(final(calls)@) == calls_view(old(calls)@).insert(
            delta_index(delta@),
            call_at(calls_view(old(calls)@), delta_index(delta@)).and(delta@),
        ),
{
    let ghost before = calls@;
    let index = index_of_delta(delta);
    let mut state = match calls.remove(&index) {
        Some(state) => state,
        None => ToolCallState::new(),
    };
    state.take_in(delta);
    calls.insert(index, state);
    assert(calls_view(calls@) =~= calls_view(before).insert(
        index,
        call_at(calls_view(before), index).and(delta@),
    ));
}

/// Ascending positions that are those of the calls give the calls in order.
proof fn lemma_calls_below(calls: Map<usize, Call>, indices: Seq<usize>, bound: nat, n: int)
    requires
        bound <= usize::MAX + 1,
        0 <= n <= indices.len(),
        forall|i: int, j: int| 0 <= i < j < indices.len() ==> indices[i] < indices[j],
        forall|i: int| 0 <= i < indices.len() ==> calls.contains_key(#[trigger] indices[i]),
        forall|index: usize| calls.contains_key(index) ==> #[trigger] indices.contains(index),
        forall|i: int| 0 <= i < n ==> #[trigger] indices[i] < bound,
        forall|i: int| n <= i < indices.len() ==> #[trigger] indices[i] >= bound,
    ensures
        calls_below(calls, bound) == indices.take(n).map_values(|index: usize| calls[index]),
    decreases bound,
{
    if bound == 0 {
        assert(n == 0) by {
            if n > 0 {
                assert(indices[0] < bound);
            }
        }
        assert(calls_below(calls, bound) =~= indices.take(n).map_values(
            |index: usize| calls[index],
        ));
    } else {
        let index = (bound - 1) as usize;
        if calls.contains_key(index) {
            assert(indices.contains(index));
            let i = choose|i: int| 0 <= i < indices.len() && indices[i] == index;
            assert(i == n - 1) by {
                if i < n - 1 {
                    assert(indices[i] < indices[n - 1]);
                }
            }
            lemma_calls_below(calls, indices, (bound - 1) as nat, n - 1);
            assert(indices.take(n).map_values(|index: usize| calls[index]) =~= indices.take(
                n - 1,
            ).map_values(|index: usize| calls[index]).push(calls[index]));
        } else {
            assert forall|i: int| 0 <= i < n implies #[trigger] indices[i] < bound - 1 by {
                assert(calls.contains_key(indices[i]));
            }
            lemma_calls_below(calls, indices, (bound - 1) as nat, n);
        }
    }
}

/// Calls come in the ascending order of their positions, each once.
pub proof fn law_calls_ascend(calls: Map<usize, Call>, indices: Seq<usize>)
    requires
        forall|i: int, j: int| 0 <= i < j < indices.len() ==> indices[i] < indices[j],
        forall|index: usize| calls.contains_key(index) <==> #[trigger] indices.contains(index),
    ensures
        calls_in_order(calls) == indices.map_values(|index: usize| calls[index]),
{
    assert forall|i: int| 0 <= i < indices.len() implies calls.contains_key(
        #[trigger] indices[i],
    ) by {
        assert(indices.contains(indices[i]));
    }
    lemma_calls_below(calls, indices, (usize::MAX + 1) as nat, indices.len() as int);
    assert(indices.take(indices.len() as int) =~= indices);
}

/// Positions in increasing order ascend.
proof fn lemma_increasing_ascends(indices: Seq<usize>)
    requires
        vstd::std_specs::btree::increasing_seq(indices),
    ensures
        forall|i: int, j: int| 0 <= i < j < indices.len() ==> indices[i] < indices[j],
{
    assert forall|i: int, j: int| 0 <= i < j < indices.len() implies indices[i] < indices[j] by {
        assert(vstd::std_specs::cmp::OrdSpec::cmp_spec(&indices[i], &indices[j]) is Less);
    }
}

/// The events that give the whole calls, in order.
fn events_of_calls(calls: &BTreeMap<usize, ToolCallState>) -> (events: Vec<Json>)
    ensures
        trees(events@) == calls_in_order(calls_view(calls@)).map_values(
            |call: Call| call_event(call),
        ),
{
    let ghost shown = calls_view(calls@);
    let mut events: Vec<Json> = Vec::new();
    let states = calls.values();
    let ghost indices = choose|indices: Seq<usize>|
        {
            &&& vstd::std_specs::btree::increasing_seq(indices)
            &&& indices.to_set() == calls@.dom()
            &&& indices.no_duplicates()
            &&& vstd::std_specs::iter::IteratorSpec::remaining(&states) == indices.map(
                |i: int, index| &calls@[index],
            )
        };
    let ghost ordered = indices.map_values(|index: usize| shown[index]);
    proof {
        assert forall|index: usize| shown.contains_key(
            index,
        ) <==> #[trigger] indices.contains(index) by {
            assert(indices.to_set().contains(index) <==> indices.contains(index));
        }
        assert forall|i: int| 0 <= i < indices.len() implies shown.contains_key(
            #[trigger] indices[i],
        ) by {
            assert(indices.contains(indices[i]));
        }
        lemma_increasing_ascends(indices);
        law_calls_ascend(shown, indices);
    }
    for state in it: states
        invariant
            it.seq() == indices.map(|i: int, index| &calls@[index]),
            shown == calls_view(calls@),
            ordered == indices.map_values(|index: usize| shown[index]),
            forall|i: int| 0 <= i < indices.len() ==> shown.contains_key(#[trigger] indices[i]),
            trees(events@) == ordered.take(it.index()).map_values(|call: Call| call_event(call)),
    {
        let item = call_output_item(
            state.name.as_str(),
            state.arguments.as_str(),
            state.id.as_str(),
        );
        let event = Json::object().with("type", Json::text("response.output_item.done")).with(
            "item",
            item,
        );
        proof {
            assert(shown.contains_key(indices[it.index()]));
            assert(ordered[it.index()] == state@);
            lemma_trees_push(events@, event);
            assert(ordered.take(it.index() + 1).map_values(|call: Call| call_event(call))
                =~= ordered.take(it.index()).map_values(|call: Call| call_event(call)).push(event@));
        }
        events.push(event);
    }
    assert(ordered.take(ordered.len() as int) =~= ordered);
    events
}

/// Translates a chat stream, chunk by chunk.
pub struct StreamTranslator {
    events: Vec<Json>,
    created: bool,
    id: String,
    text: String,
    usage: Option<Json>,
    calls: BTreeMap<usize, ToolCallState>,
}

impl View for StreamTranslator {
    type V = Progress;

    closed spec fn view(&self) -> Progress {
        Progress {
            events: trees(self.events@),
            created: self.created,
            id: self.id@,
            text: self.text@,
            usage: match self.usage {
                Some(usage) => Some(usage@),
                None => None,
            },
            calls: calls_view(self.calls@),
        }
    }
}

impl StreamTranslator {
    /// A translator that has seen no chunk.
    pub fn new() -> (translator: StreamTranslator)
        ensures
            translator@ == Progress::start(),
    {
        let translator = StreamTranslator {
            events: Vec::new(),
            created: false,
            id: DEFAULT_RESPONSE_ID.to_owned(),
            text: String::new(),
            usage: None,
            calls: BTreeMap::new(),
        };
        assert(translator@ =~= Progress::start());
        translator
    }

    /// Adds an event.
    fn emit(&mut self, event: Json)
        ensures
            final(self)@ == (Progress { events: old(self)@.events.push(event@), ..old(self)@ }),
    {
        proof {
            lemma_trees_push(self.events@, event);
        }
        self.events.push(event);
    }

    /// Opens the response, once.
    fn open(&mut self)
        ensures
            final(self)@ == old(self)@.opened(),
    {
        if !self.created {
            self.created = true;
            let response = Json::object().with("id", Json::text(self.id.as_str()));
            self.emit(
                Json::object().with("type", Json::text("response.created")).with(
                    "response",
                    response,
                ),
            );
        }
    }

    /// Takes in the text that a choice adds.
    fn take_in_text(&mut self, choice: &Json)
        ensures
            final(self)@ == old(self)@.said(choice@),
    {
        if let Some(delta) = choice.get("delta") {
            if let Some(content) = delta.text_at("content") {
                self.text.append(content);
                self.emit(
                    Json::object().with("type", Json::text("response.output_text.delta")).with(
                        "delta",
                        Json::text(content),
                    ),
                );
            }
        }
    }

    /// Takes in what a choice adds to the calls.
    fn take_in_calls(&mut self, choice: &Json)
        ensures
            final(self)@ == old(self)@.called(choice@),
    {
        let ghost before = self@;
        if let Some(delta) = choice.get("delta") {
            if let Some(deltas) = delta.list_at("tool_calls") {
                let ghost all = trees(deltas@);
                proof {
                    lemma_trees_len(deltas@);
                }
                for i in 0..deltas.len()
                    invariant
                        all == trees(deltas@),
                        all.len() == deltas@.len(),
                        self@ == (Progress {
                            calls: calls_after(before.calls, all.take(i as int)),
                            ..before
                        }),
                {
                    proof {
                        lemma_trees_index(deltas@, i as int);
                        assert(all.take(i + 1).drop_last() =~= all.take(i as int));
                    }
                    take_in_delta(&mut self.calls, &deltas[i]);
                }
                assert(all.take(all.len() as int) =~= all);
            }
        }
    }

    /// Gives the whole items, where the choice says that its message is complete.
    fn finish_message(&mut self, choice: &Json)
        ensures
            final(self)@ == old(self)@.finished(choice@),
    {
        let ghost before = self@;
        let finished = match choice.text_at("finish_reason") {
            Some(reason) => same_text(reason, "stop") || same_text(reason, "length") || same_text(
                reason,
                "tool_calls",
            ),
            None => false,
        };
        if !finished {
            return;
        }
        let ghost mut given: Seq<Tree> = Seq::empty();
        assert(before.events + given =~= before.events);
        if !self.text.as_str().is_empty() {
            let item = message_output_item(self.text.as_str());
            let event = Json::object().with("type", Json::text("response.output_item.done")).with(
                "item",
                item,
            );
            proof {
                given = seq![event@];
            }
            self.emit(event);
            assert(self@.events =~= before.events + given);
            self.text = String::new();
        }
        let mut events = events_of_calls(&self.calls);
        let ghost called = trees(events@);
        proof {
            lemma_trees_append(self.events@, events@);
            assert((before.events + given) + called =~= before.events + (given + called));
        }
        self.events.append(&mut events);
        self.calls.clear();
        assert(self@.text =~= Seq::empty());
        assert(self@.calls =~= Map::empty());
    }

    /// Takes in a further chunk.
    pub fn take_in(&mut self, chunk: &Json)
        ensures
            final(self)@ == old(self)@.after(chunk@),
    {
        if let Some(id) = chunk.text_at("id") {
            self.id = id.to_owned();
        }
        self.open();
        if let Some(usage) = chunk.get("usage") {
            self.usage = Some(usage.duplicate());
        }
        if let Some(choice) = chat_first_choice(chunk) {
            self.take_in_text(choice);
            self.take_in_calls(choice);
            self.finish_message(choice);
        }
    }

    /// Whether the token counts of the last usage report can be added up.
    pub fn counts_fit(&self) -> (fit: bool)
        ensures
            fit == counts_fit(self@.usage),
    {
        token_counts_fit(self.usage.as_ref())
    }

    /// All events, once the stream has ended.
    pub fn finish(self) -> (events: Vec<Json>)
        requires
            counts_fit(self@.usage),
        ensures
            trees(events@) == self@.all_events(),
    {
        let mut translator = self;
        translator.open();
        let usage = report_usage(translator.usage.as_ref());
        let response = Json::object().with("id", Json::text(translator.id.as_str())).with(
            "usage",
            usage,
        );
        translator.emit(
            Json::object().with("type", Json::text("response.completed")).with(
                "response",
                response,
            ),
        );
        translator.events
    }
}

/// The translator after the chunks.
pub fn translate_chunks(chunks: &Vec<Json>) -> (translator: StreamTranslator)
    ensures
        translator@ == progress(trees(chunks@)),
{
    let ghost all = trees(chunks@);
    proof {
        lemma_trees_len(chunks@);
    }
    let mut translator = StreamTranslator::new();
    for i in 0..chunks.len()
        invariant
            all == trees(chunks@),
            all.len() == chunks@.len(),
            translator@ == progress(all.take(i as int)),
    {
        proof {
            lemma_trees_index(chunks@, i as int);
            assert(all.take(i + 1).drop_last() =~= all.take(i as int));
        }
        translator.take_in(&chunks[i]);
    }
    assert(all.take(all.len() as int) =~= all);
    translator
}

/// The events that the chunks of a chat stream become.
pub fn chunks_to_events(chunks: &Vec<Json>) -> (events: Vec<Json>)
    requires
        counts_fit(progress(trees(chunks@)).usage),
    ensures
        trees(events@) == response_events(trees(chunks@)),
{
    translate_chunks(chunks).finish()
}

/// What becomes of the bytes of a chat stream.
pub open spec fn mapped_stream(body: Seq<u8>) -> Result<Seq<u8>, TranslateFailure> {
    if valid_utf8(body) {
        Ok(encode_utf8(stream_text(response_events(stream_chunks(decode_utf8(body))))))
    } else {
        Err(TranslateFailure { context: TranslateContext::DecodeStream, cause: utf8_error(body) })
    }
}

/// Whether the token counts that a chat stream reports last can be added up.
pub open spec fn stream_counts_fit(body: Seq<u8>) -> bool {
    valid_utf8(body) ==> counts_fit(progress(stream_chunks(decode_utf8(body))).usage)
}

/// The bytes that are sent read back as the events that the chunks of a body become.
pub open spec fn is_stream_of(sent: Seq<u8>, body: Seq<u8>) -> bool {
    &&& valid_utf8(sent)
    &&& stream_chunks(decode_utf8(sent)) == response_events(stream_chunks(decode_utf8(body)))
}

/// An event that reads back from its text.
pub open spec fn plain_event(event: Tree) -> bool {
    event is Object && reads_back(event, NESTING_LIMIT as nat)
}

/// The events with which a message is finished read back.
proof fn lemma_item_events_plain(before: Progress)
    ensures
        forall|i: int|
            0 <= i < before.item_events().len() ==> plain_event(#[trigger] before.item_events()[i]),
{
    broadcast use lemma_with_reads_back;

    let events = before.item_events();
    let calls = calls_in_order(before.calls);
    assert forall|i: int| 0 <= i < events.len() implies plain_event(#[trigger] events[i]) by {
        let said: int = if before.text.len() > 0 { 1 } else { 0 };
        if i < said {
            lemma_message_item_reads_back(before.text);
            lemma_reads_back_deeper(
                message_item(before.text),
                (NESTING_LIMIT - 2) as nat,
                (NESTING_LIMIT - 1) as nat,
            );
            assert(events[i] == item_event(message_item(before.text)));
        } else {
            let call = calls[i - said];
            assert(events[i] == call_event(call));
            lemma_call_item_reads_back(call.name, call.arguments, call.id);
            lemma_reads_back_deeper(
                call_item(call.name, call.arguments, call.id),
                (NESTING_LIMIT - 2) as nat,
                (NESTING_LIMIT - 1) as nat,
            );
        }
    }
}

/// The events so far read back.
proof fn lemma_events_plain(chunks: Seq<Tree>)
    ensures
        forall|i: int|
            0 <= i < progress(chunks).events.len() ==> plain_event(
                #[trigger] progress(chunks).events[i],
            ),
    decreases chunks.len(),
{
    broadcast use lemma_with_reads_back;

    if chunks.len() > 0 {
        lemma_events_plain(chunks.drop_last());
        let chunk = chunks.last();
        let noted = progress(chunks.drop_last()).named(chunk).opened().metered(chunk);
        assert forall|i: int| 0 <= i < noted.events.len() implies plain_event(
            #[trigger] noted.events[i],
        ) by {}
        if let Some(choice) = first_choice(chunk) {
            let said = noted.said(choice);
            assert forall|i: int| 0 <= i < said.events.len() implies plain_event(
                #[trigger] said.events[i],
            ) by {}
            lemma_item_events_plain(said.called(choice));
        }
    }
}

/// Every event of a response stream is an object that reads back from its text, whatever the chat
/// stream was.
pub proof fn law_events_read_back(chunks: Seq<Tree>)
    ensures
        forall|i: int|
            0 <= i < response_events(chunks).len() ==> plain_event(
                #[trigger] response_events(chunks)[i],
            ),
{
    broadcast use lemma_with_reads_back;

    lemma_events_plain(chunks);
    let before = progress(chunks);
    lemma_usage_reads_back(before.opened().usage);
}

/// Translates a chat stream, as bytes, to a response stream. What the client gets reads back as
/// the events that the chunks become. A carriage return behind any payload would change nothing.
pub fn chat_completions_sse_to_responses_sse(body: &[u8]) -> (translated: Result<
    Vec<u8>,
    TranslateError,
>)
    requires
        stream_counts_fit(body@),
    ensures
        translated_view(translated) == mapped_stream(body@),
        translated is Ok <==> valid_utf8(body@),
        translated matches Ok(sent) ==> is_stream_of(sent@, body@),
        translated is Ok ==> returns_are_idle(decode_utf8(body@)),
{
    broadcast use {encode_utf8_decode_utf8, encode_utf8_valid_utf8};

    let text = match text_from_utf8(body) {
        Ok(text) => text,
        Err(cause) => {
            return Err(TranslateError { context: TranslateContext::DecodeStream, cause });
        },
    };
    assert(text@ == decode_utf8(body@));
    let chunks = read_chunks(text);
    let events = chunks_to_events(&chunks);
    let out = match write_events(&events) {
        Ok(out) => out,
        Err(error) => return Err(error),
    };
    proof {
        law_events_read_back(trees(chunks@));
        lemma_trees_len(events@);
        assert forall|i: int| 0 <= i < events@.len() implies (#[trigger] events@[i])@ is Object
            && reads_back(events@[i]@, NESTING_LIMIT as nat) by {
            lemma_trees_index(events@, i);
            assert(plain_event(response_events(trees(chunks@))[i]));
        }
    }
    Ok(out.as_str().as_bytes_vec())
}

/// Translates a chat stream whose token counts can be added up; `None` for any other.
pub fn checked_chat_sse_to_responses_sse(body: &[u8]) -> (translated: Option<
    Result<Vec<u8>, TranslateError>,
>)
    ensures
        translated is Some <==> stream_counts_fit(body@),
        translated matches Some(translated) ==> translated_view(translated) == mapped_stream(body@),
        translated matches Some(translated) ==> (translated is Ok <==> valid_utf8(body@)),
        translated matches Some(Ok(sent)) ==> is_stream_of(sent@, body@),
        valid_utf8(body@) ==> returns_are_idle(decode_utf8(body@)),
{
    broadcast use {encode_utf8_decode_utf8, encode_utf8_valid_utf8};

    if let Ok(text) = text_from_utf8(body) {
        assert(text@ == decode_utf8(body@));
        if !translate_chunks(&read_chunks(text)).counts_fit() {
            return None;
        }
    }
    Some(chat_completions_sse_to_responses_sse(body))
}

}
