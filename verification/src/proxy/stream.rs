//! Translates a Chat Completions reply, streamed or buffered, into the
//! Responses event stream.
//!
//! Output items get their `output_index` in the order they start: plaintext
//! reasoning and the assistant message while the reply streams, the tool
//! calls (in tool-call index order) when it finishes. The finishing events are
//! emitted in output-index order and end with exactly one terminal event.

use crate::proxy::config::ReasoningContentPolicy;
use crate::proxy::error::{error_message, ProxyError, ProxyErrorV};
use crate::proxy::history::opt_view_or_empty;
use crate::proxy::tool_registry::{spec_response_item, RegistryV, ToolRegistry};
use crate::proxy::protocol::{
    BufferedChatChoice, BufferedChatCompletion, BufferedChatMessage, BufferedChatToolCall,
    ChatChoice, ChatChunk, ChatDelta, ChatToolCallDelta, ChatUsage,
    OutputToolCall, OutputToolCallV,
};
use crate::text::{
    chars_of, chars_eq, concat2, debug_str, decimal, decimal_string, opt_string_view, str_debug,
    str_is, trim, trim_chars,
};
use vstd::prelude::*;

verus! {

/// A lowercase hexadecimal digit.
pub open spec fn is_lower_hex(c: char) -> bool {
    ('0' <= c && c <= '9') || ('a' <= c && c <= 'f')
}

/// The simple form of a UUID: 32 lowercase hexadecimal digits.
pub open spec fn is_simple_uuid(s: Seq<char>) -> bool {
    s.len() == 32 && forall|i: int| 0 <= i < s.len() ==> is_lower_hex(#[trigger] s[i])
}

/// `id` is `prefix`, an underscore and the simple form of a UUID.
pub open spec fn is_prefixed_id(prefix: Seq<char>, id: Seq<char>) -> bool {
    &&& id.len() == prefix.len() + 33
    &&& id.subrange(0, prefix.len() as int) == prefix
    &&& id[prefix.len() as int] == '_'
    &&& is_simple_uuid(id.subrange(prefix.len() as int + 1, id.len() as int))
}

/// A new time-ordered UUID in its simple form (`uuid::Uuid::now_v7()`,
/// formatted by `Uuid::simple`): 32 lowercase hexadecimal digits. Its value
/// rests on the clock and on random bits, so nothing more is stated of it.
#[verifier::external_body]
fn uuid_v7_simple() -> (res: String)
    ensures
        is_simple_uuid(res@),
{
    uuid::Uuid::now_v7().simple().to_string()
}

/// A fresh identifier: `prefix`, `_` and a new time-ordered UUID.
pub fn prefixed_id(prefix: &str) -> (res: String)
    ensures
        is_prefixed_id(prefix@, res@),
{
    let uuid = uuid_v7_simple();
    let mut id = concat2(prefix, "_");
    id.append(uuid.as_str());
    proof {
        reveal_strlit("_");
        assert(id@.subrange(0, prefix@.len() as int) =~= prefix@);
        assert(id@.subrange(prefix@.len() as int + 1, id@.len() as int) =~= uuid@);
    }
    id
}

/// Token usage as the Responses `usage` object reports it.
#[derive(Clone, Copy, Debug, PartialEq, Eq, Structural)]
pub struct ResponseUsage {
    pub input_tokens: u64,
    pub cached_tokens: u64,
    pub output_tokens: u64,
    pub reasoning_tokens: u64,
    pub total_tokens: u64,
}

/// One event of the Responses stream.
#[derive(Clone, Debug, PartialEq, Eq)]
pub enum ResponseEvent {
    /// `response.created`, in progress with no output.
    Created { response_id: String },
    /// `response.output_item.added` for the reasoning item.
    ReasoningAdded { output_index: usize, item_id: String },
    /// `response.reasoning_text.delta`.
    ReasoningDelta { output_index: usize, item_id: String, delta: String },
    /// `response.reasoning_text.done`.
    ReasoningTextDone { output_index: usize, item_id: String, text: String },
    /// `response.output_item.done` for the completed reasoning item.
    ReasoningDone { output_index: usize, item_id: String, text: String },
    /// `response.output_item.added` for the assistant message.
    MessageAdded { output_index: usize, item_id: String },
    /// `response.output_text.delta`.
    TextDelta { output_index: usize, item_id: String, delta: String },
    /// `response.output_item.done` for the completed assistant message.
    MessageDone { output_index: usize, item_id: String, text: String },
    /// `response.output_item.done` for a completed tool call.
    ToolCallDone { output_index: usize, item: OutputToolCall },
    /// `response.incomplete` because the output token limit was reached.
    Incomplete { response_id: String },
    /// `response.failed` with an upstream error message.
    Failed { response_id: String, message: String },
    /// `response.completed`, with the usage when the upstream reported it.
    Completed { response_id: String, usage: Option<ResponseUsage> },
}

/// The value of a [`ResponseEvent`].
pub enum ResponseEventV {
    Created { response_id: Seq<char> },
    ReasoningAdded { output_index: nat, item_id: Seq<char> },
    ReasoningDelta { output_index: nat, item_id: Seq<char>, delta: Seq<char> },
    ReasoningTextDone { output_index: nat, item_id: Seq<char>, text: Seq<char> },
    ReasoningDone { output_index: nat, item_id: Seq<char>, text: Seq<char> },
    MessageAdded { output_index: nat, item_id: Seq<char> },
    TextDelta { output_index: nat, item_id: Seq<char>, delta: Seq<char> },
    MessageDone { output_index: nat, item_id: Seq<char>, text: Seq<char> },
    ToolCallDone { output_index: nat, item: OutputToolCallV },
    Incomplete { response_id: Seq<char> },
    Failed { response_id: Seq<char>, message: Seq<char> },
    Completed { response_id: Seq<char>, usage: Option<ResponseUsage> },
}

impl View for ResponseEvent {
    type V = ResponseEventV;

    open spec fn view(&self) -> ResponseEventV {
        match self {
            ResponseEvent::Created { response_id } => ResponseEventV::Created {
                response_id: response_id@,
            },
            ResponseEvent::ReasoningAdded { output_index, item_id } =>
                ResponseEventV::ReasoningAdded { output_index: *output_index as nat, item_id: item_id@ },
            ResponseEvent::ReasoningDelta { output_index, item_id, delta } =>
                ResponseEventV::ReasoningDelta {
                output_index: *output_index as nat,
                item_id: item_id@,
                delta: delta@,
            },
            ResponseEvent::ReasoningTextDone { output_index, item_id, text } =>
                ResponseEventV::ReasoningTextDone {
                output_index: *output_index as nat,
                item_id: item_id@,
                text: text@,
            },
            ResponseEvent::ReasoningDone { output_index, item_id, text } =>
                ResponseEventV::ReasoningDone {
                output_index: *output_index as nat,
                item_id: item_id@,
                text: text@,
            },
            ResponseEvent::MessageAdded { output_index, item_id } => ResponseEventV::MessageAdded {
                output_index: *output_index as nat,
                item_id: item_id@,
            },
            ResponseEvent::TextDelta { output_index, item_id, delta } => ResponseEventV::TextDelta {
                output_index: *output_index as nat,
                item_id: item_id@,
                delta: delta@,
            },
            ResponseEvent::MessageDone { output_index, item_id, text } =>
                ResponseEventV::MessageDone {
                output_index: *output_index as nat,
                item_id: item_id@,
                text: text@,
            },
            ResponseEvent::ToolCallDone { output_index, item } => ResponseEventV::ToolCallDone {
                output_index: *output_index as nat,
                item: item@,
            },
            ResponseEvent::Incomplete { response_id } => ResponseEventV::Incomplete {
                response_id: response_id@,
            },
            ResponseEvent::Failed { response_id, message } => ResponseEventV::Failed {
                response_id: response_id@,
                message: message@,
            },
            ResponseEvent::Completed { response_id, usage } => ResponseEventV::Completed {
                response_id: response_id@,
                usage: *usage,
            },
        }
    }
}

pub open spec fn events_view(v: Seq<ResponseEvent>) -> Seq<ResponseEventV> {
    v.map_values(|e: ResponseEvent| e@)
}

/// The plaintext reasoning item of a reply.
pub struct ReasoningV {
    pub policy: ReasoningContentPolicy,
    pub id: Seq<char>,
    pub output_index: Option<nat>,
    pub text: Seq<char>,
}

pub open spec fn plaintext_reasoning_refusal() -> Seq<char> {
    "upstream plaintext reasoning_content; enable the backend reasoning-content policy"@
}

/// A reasoning delta: refused unless the backend's reasoning is declared
/// plaintext; the first one starts the item at the next output index.
/// Gives the new item, the next free output index and the events.
pub open spec fn spec_reasoning_delta(r: ReasoningV, delta: Seq<char>, next: nat) -> Result<
    (ReasoningV, nat, Seq<ResponseEventV>),
    ProxyErrorV,
> {
    if r.policy != ReasoningContentPolicy::Plaintext {
        Err(ProxyErrorV::Unsupported(plaintext_reasoning_refusal()))
    } else {
        let (index, next2, added) = match r.output_index {
            Some(i) => (i, next, Seq::<ResponseEventV>::empty()),
            None => (
                next,
                next + 1,
                seq![ResponseEventV::ReasoningAdded { output_index: next, item_id: r.id }],
            ),
        };
        Ok(
            (
                ReasoningV {
                    policy: r.policy,
                    id: r.id,
                    output_index: Some(index),
                    text: r.text + delta,
                },
                next2,
                added.push(
                    ResponseEventV::ReasoningDelta { output_index: index, item_id: r.id, delta },
                ),
            ),
        )
    }
}

/// The finishing events of a started reasoning item.
pub open spec fn spec_reasoning_finish(r: ReasoningV) -> Seq<ResponseEventV> {
    match r.output_index {
        None => Seq::empty(),
        Some(i) => seq![
            ResponseEventV::ReasoningTextDone { output_index: i, item_id: r.id, text: r.text },
            ResponseEventV::ReasoningDone { output_index: i, item_id: r.id, text: r.text },
        ],
    }
}

struct ReasoningState {
    policy: ReasoningContentPolicy,
    id: String,
    output_index: Option<usize>,
    text: String,
}

impl View for ReasoningState {
    type V = ReasoningV;

    closed spec fn view(&self) -> ReasoningV {
        ReasoningV {
            policy: self.policy,
            id: self.id@,
            output_index: match self.output_index {
                Some(i) => Some(i as nat),
                None => None,
            },
            text: self.text@,
        }
    }
}

impl ReasoningState {
    fn new(policy: ReasoningContentPolicy) -> (res: Self)
        ensures
            res@.policy == policy,
            is_prefixed_id("rs"@, res@.id),
            res@.output_index is None,
            res@.text.len() == 0,
    {
        ReasoningState { policy, id: prefixed_id("rs"), output_index: None, text: String::new() }
    }

    fn push_delta(&mut self, delta: String, next: &mut usize) -> (res: Result<Vec<ResponseEvent>, ProxyError>)
        requires
            *old(next) < usize::MAX,
        ensures
            match spec_reasoning_delta(old(self)@, delta@, *old(next) as nat) {
                Ok((r, n, evs)) => res matches Ok(v) && events_view(v@) == evs && final(self)@ == r
                    && *final(next) == n,
                Err(e) => res matches Err(err) && err@ == e && final(self)@ == old(self)@
                    && *final(next) == *old(next),
            },
    {
        if self.policy != ReasoningContentPolicy::Plaintext {
            return Err(
                ProxyError::Unsupported(
                    String::from_str(
                        "upstream plaintext reasoning_content; enable the backend reasoning-content policy",
                    ),
                ),
            );
        }
        let mut events: Vec<ResponseEvent> = Vec::new();
        let index = match self.output_index {
            Some(i) => i,
            None => {
                let i = *next;
                *next = *next + 1;
                self.output_index = Some(i);
                events.push(ResponseEvent::ReasoningAdded { output_index: i, item_id: self.id.clone() });
                i
            },
        };
        self.text.append(delta.as_str());
        events.push(ResponseEvent::ReasoningDelta { output_index: index, item_id: self.id.clone(), delta });
        proof {
            let added = match old(self)@.output_index {
                Some(i) => Seq::<ResponseEventV>::empty(),
                None => seq![
                    ResponseEventV::ReasoningAdded { output_index: *old(next) as nat, item_id: old(self)@.id },
                ],
            };
            assert(events_view(events@) =~= added.push(
                ResponseEventV::ReasoningDelta { output_index: index as nat, item_id: self@.id, delta: delta@ },
            ));
        }
        Ok(events)
    }

    fn finish_events(&self) -> (res: Vec<ResponseEvent>)
        ensures
            events_view(res@) == spec_reasoning_finish(self@),
    {
        let mut events: Vec<ResponseEvent> = Vec::new();
        match self.output_index {
            None => {},
            Some(i) => {
                events.push(
                    ResponseEvent::ReasoningTextDone { output_index: i, item_id: self.id.clone(), text: self.text.clone() },
                );
                events.push(
                    ResponseEvent::ReasoningDone { output_index: i, item_id: self.id.clone(), text: self.text.clone() },
                );
            },
        }
        assert(events_view(events@) =~= spec_reasoning_finish(self@));
        events
    }
}


/// A tool call being assembled from streamed fragments.
pub struct PendingCallV {
    pub index: nat,
    pub item_id: Seq<char>,
    pub call_id: Seq<char>,
    pub name: Seq<char>,
    pub arguments: Seq<char>,
}

struct PendingToolCall {
    index: usize,
    item_id: String,
    call_id: String,
    name: String,
    arguments: String,
}

impl View for PendingToolCall {
    type V = PendingCallV;

    closed spec fn view(&self) -> PendingCallV {
        PendingCallV {
            index: self.index as nat,
            item_id: self.item_id@,
            call_id: self.call_id@,
            name: self.name@,
            arguments: self.arguments@,
        }
    }
}

pub open spec fn calls_view(v: Seq<PendingToolCall>) -> Seq<PendingCallV> {
    v.map_values(|c: PendingToolCall| c@)
}

/// The pending calls are kept in increasing tool-call index order, each
/// index at most once.
pub open spec fn calls_sorted(calls: Seq<PendingCallV>) -> bool {
    forall|i: int, j: int| 0 <= i < j < calls.len() ==> #[trigger] calls[i].index < #[trigger] calls[j].index
}

/// The first position at or after `i` whose tool-call index is not below `index`.
pub open spec fn call_slot_from(calls: Seq<PendingCallV>, index: nat, i: int) -> int
    decreases calls.len() - i,
{
    if i < 0 || i >= calls.len() || calls[i].index >= index {
        i
    } else {
        call_slot_from(calls, index, i + 1)
    }
}

pub open spec fn call_slot(calls: Seq<PendingCallV>, index: nat) -> int {
    call_slot_from(calls, index, 0)
}

proof fn lemma_call_slot(calls: Seq<PendingCallV>, index: nat, i: int)
    requires
        0 <= i <= calls.len(),
    ensures
        i <= call_slot_from(calls, index, i) <= calls.len(),
        forall|j: int| i <= j < call_slot_from(calls, index, i) ==> calls[j].index < index,
        call_slot_from(calls, index, i) < calls.len() ==> calls[call_slot_from(calls, index, i)].index
            >= index,
    decreases calls.len() - i,
{
    if i < calls.len() && calls[i].index < index {
        lemma_call_slot(calls, index, i + 1);
    }
}

/// What a fragment adds to a text field: its text, or nothing.
pub open spec fn fragment(s: Option<String>) -> Seq<char> {
    opt_view_or_empty(s)
}

/// Applies one tool-call fragment: the call with its index is created on
/// first sight (with `fresh` as its item id), its call id is set once and may
/// not change, and name and arguments accumulate.
pub open spec fn spec_tool_delta(calls: Seq<PendingCallV>, d: ChatToolCallDelta, fresh: Seq<char>) -> Result<
    Seq<PendingCallV>,
    ProxyErrorV,
> {
    let p = call_slot(calls, d.index as nat);
    let found = p < calls.len() && calls[p].index == d.index;
    let base = if found {
        calls[p]
    } else {
        PendingCallV {
            index: d.index as nat,
            item_id: fresh,
            call_id: Seq::empty(),
            name: Seq::empty(),
            arguments: Seq::empty(),
        }
    };
    if d.id is Some && base.call_id.len() > 0 && base.call_id != d.id->Some_0@ {
        Err(
            ProxyErrorV::InvalidUpstream(
                "conflicting call IDs for tool-call index "@ + decimal(d.index as nat),
            ),
        )
    } else {
        let c = PendingCallV {
            index: base.index,
            item_id: base.item_id,
            call_id: if d.id is Some && base.call_id.len() == 0 {
                d.id->Some_0@
            } else {
                base.call_id
            },
            name: base.name + fragment(d.name),
            arguments: base.arguments + fragment(d.arguments),
        };
        Ok(
            if found {
                calls.update(p, c)
            } else {
                calls.insert(p, c)
            },
        )
    }
}

/// Applies the fragments in order; the i-th fragment may use `fresh[i]`.
pub open spec fn spec_tool_deltas(
    calls: Seq<PendingCallV>,
    deltas: Seq<ChatToolCallDelta>,
    fresh: Seq<Seq<char>>,
) -> Result<Seq<PendingCallV>, ProxyErrorV>
    decreases deltas.len(),
{
    if deltas.len() == 0 {
        Ok(calls)
    } else {
        match spec_tool_deltas(calls, deltas.drop_last(), fresh) {
            Err(e) => Err(e),
            Ok(c) => spec_tool_delta(c, deltas.last(), fresh[deltas.len() - 1]),
        }
    }
}

/// The name fragments of a run of tool-call fragments, in order.
pub open spec fn run_name(ds: Seq<ChatToolCallDelta>) -> Seq<char>
    decreases ds.len(),
{
    if ds.len() == 0 {
        Seq::empty()
    } else {
        run_name(ds.drop_last()) + fragment(ds.last().name)
    }
}

/// The argument fragments of a run of tool-call fragments, in order.
pub open spec fn run_arguments(ds: Seq<ChatToolCallDelta>) -> Seq<char>
    decreases ds.len(),
{
    if ds.len() == 0 {
        Seq::empty()
    } else {
        run_arguments(ds.drop_last()) + fragment(ds.last().arguments)
    }
}

/// The call id a run of fragments sets: the first non-empty id given.
pub open spec fn run_call_id(ds: Seq<ChatToolCallDelta>) -> Seq<char>
    decreases ds.len(),
{
    if ds.len() == 0 {
        Seq::empty()
    } else {
        let prev = run_call_id(ds.drop_last());
        if prev.len() == 0 && ds.last().id is Some {
            ds.last().id->Some_0@
        } else {
            prev
        }
    }
}

/// All the ids a run of fragments gives are the same.
pub open spec fn ids_agree(ds: Seq<ChatToolCallDelta>) -> bool {
    forall|j: int, k: int|
        0 <= j < ds.len() && 0 <= k < ds.len() && (#[trigger] ds[j]).id is Some && (#[trigger] ds[k]).id is Some
            ==> ds[j].id->Some_0@ == ds[k].id->Some_0@
}

proof fn lemma_run_call_id(ds: Seq<ChatToolCallDelta>)
    requires
        ids_agree(ds),
    ensures
        forall|j: int| 0 <= j < ds.len() && (#[trigger] ds[j]).id is Some ==> run_call_id(ds) == ds[j].id->Some_0@,
        (forall|j: int| 0 <= j < ds.len() ==> (#[trigger] ds[j]).id is None) ==> run_call_id(ds).len() == 0,
    decreases ds.len(),
{
    if ds.len() > 0 {
        let rest = ds.drop_last();
        assert forall|j: int, k: int|
            0 <= j < rest.len() && 0 <= k < rest.len() && (#[trigger] rest[j]).id is Some && (#[trigger] rest[k]).id is Some
                implies rest[j].id->Some_0@ == rest[k].id->Some_0@ by {
            assert(rest[j] == ds[j] && rest[k] == ds[k]);
        }
        lemma_run_call_id(rest);
        assert forall|j: int| 0 <= j < ds.len() && (#[trigger] ds[j]).id is Some implies run_call_id(ds)
            == ds[j].id->Some_0@ by {
            let last = ds.len() - 1;
            if exists|m: int| 0 <= m < rest.len() && (#[trigger] rest[m]).id is Some {
                let m = choose|m: int| 0 <= m < rest.len() && (#[trigger] rest[m]).id is Some;
                assert(rest[m] == ds[m]);
                assert(run_call_id(rest) == ds[m].id->Some_0@);
                assert(ds[m].id->Some_0@ == ds[j].id->Some_0@);
                if ds[last].id is Some {
                    assert(ds[m].id->Some_0@ == ds[last].id->Some_0@);
                }
            } else {
                assert forall|m: int| 0 <= m < rest.len() implies (#[trigger] rest[m]).id is None by {}
                if j < last {
                    assert(rest[j] == ds[j]);
                }
            }
        }
        if forall|j: int| 0 <= j < ds.len() ==> (#[trigger] ds[j]).id is None {
            assert forall|m: int| 0 <= m < rest.len() implies (#[trigger] rest[m]).id is None by {
                assert(rest[m] == ds[m]);
            }
            assert(ds[ds.len() - 1].id is None);
        }
    }
}

/// The call a run of fragments for one tool-call index assembles.
pub open spec fn run_call(index: nat, item_id: Seq<char>, ds: Seq<ChatToolCallDelta>) -> PendingCallV {
    PendingCallV {
        index,
        item_id,
        call_id: run_call_id(ds),
        name: run_name(ds),
        arguments: run_arguments(ds),
    }
}

proof fn lemma_slot_after_insert(calls: Seq<PendingCallV>, index: nat, c: PendingCallV)
    requires
        calls_sorted(calls),
        c.index == index,
        forall|j: int| 0 <= j < calls.len() ==> (#[trigger] calls[j]).index != index,
    ensures
        call_slot(calls.insert(call_slot(calls, index), c), index) == call_slot(calls, index),
{
    let p = call_slot(calls, index);
    lemma_call_slot(calls, index, 0);
    let c2 = calls.insert(p, c);
    lemma_call_slot(c2, index, 0);
    let r = call_slot(c2, index);
    assert(c2[p] == c);
    if r < p {
        assert(c2[r] == calls[r]);
    }
}

/// A run of fragments for one new tool-call index whose ids agree is taken
/// whole: it adds one call at that index, whose name and arguments are the
/// concatenations of the fragments' and whose call id is the first non-empty
/// id given (any id given, when they all agree), the other calls unchanged.
pub proof fn lemma_tool_call_run(
    calls: Seq<PendingCallV>,
    ds: Seq<ChatToolCallDelta>,
    fresh: Seq<Seq<char>>,
    index: usize,
)
    requires
        calls_sorted(calls),
        forall|j: int| 0 <= j < calls.len() ==> (#[trigger] calls[j]).index != index,
        ds.len() > 0,
        forall|j: int| 0 <= j < ds.len() ==> (#[trigger] ds[j]).index == index,
        ids_agree(ds),
        fresh.len() >= ds.len(),
    ensures
        spec_tool_deltas(calls, ds, fresh) == Ok::<Seq<PendingCallV>, ProxyErrorV>(
            calls.insert(call_slot(calls, index as nat), run_call(index as nat, fresh[0], ds)),
        ),
        forall|j: int| 0 <= j < ds.len() && (#[trigger] ds[j]).id is Some ==> run_call_id(ds) == ds[j].id->Some_0@,
        (forall|j: int| 0 <= j < ds.len() ==> (#[trigger] ds[j]).id is None) ==> run_call_id(ds).len() == 0,
    decreases ds.len(),
{
    lemma_run_call_id(ds);
    let p = call_slot(calls, index as nat);
    lemma_call_slot(calls, index as nat, 0);
    let d = ds.last();
    assert(d == ds[ds.len() - 1]);
    let rest = ds.drop_last();
    if ds.len() == 1 {
        assert(rest.len() == 0);
        assert(spec_tool_deltas(calls, rest, fresh) == Ok::<Seq<PendingCallV>, ProxyErrorV>(calls));
        assert(p < calls.len() ==> calls[p].index != index);
        assert(run_call_id(rest).len() == 0);
        assert(run_name(rest) =~= Seq::<char>::empty());
        assert(run_arguments(rest) =~= Seq::<char>::empty());
        assert(run_name(ds) =~= fragment(d.name));
        assert(run_arguments(ds) =~= fragment(d.arguments));
    } else {
        assert forall|j: int| 0 <= j < rest.len() implies (#[trigger] rest[j]).index == index by {
            assert(rest[j] == ds[j]);
        }
        assert forall|j: int, k: int|
            0 <= j < rest.len() && 0 <= k < rest.len() && (#[trigger] rest[j]).id is Some && (#[trigger] rest[k]).id is Some
                implies rest[j].id->Some_0@ == rest[k].id->Some_0@ by {
            assert(rest[j] == ds[j] && rest[k] == ds[k]);
        }
        lemma_tool_call_run(calls, rest, fresh, index);
        let prev = run_call(index as nat, fresh[0], rest);
        let c1 = calls.insert(p, prev);
        lemma_slot_after_insert(calls, index as nat, prev);
        assert(c1[p] == prev);
        if d.id is Some && prev.call_id.len() > 0 {
            if exists|m: int| 0 <= m < rest.len() && (#[trigger] rest[m]).id is Some {
                let m = choose|m: int| 0 <= m < rest.len() && (#[trigger] rest[m]).id is Some;
                assert(rest[m] == ds[m]);
                assert(ds[m].id->Some_0@ == ds[ds.len() - 1].id->Some_0@);
            } else {
                assert forall|m: int| 0 <= m < rest.len() implies (#[trigger] rest[m]).id is None by {}
            }
        }
        assert(c1.update(p, run_call(index as nat, fresh[0], ds)) =~= calls.insert(
            p,
            run_call(index as nat, fresh[0], ds),
        ));
    }
}

/// Once a call holds a non-empty id, a fragment for its index with another id
/// is refused.
pub proof fn lemma_tool_call_id_conflict(calls: Seq<PendingCallV>, d: ChatToolCallDelta, fresh: Seq<char>)
    requires
        calls_sorted(calls),
        d.id is Some,
        exists|k: int|
            0 <= k < calls.len() && (#[trigger] calls[k]).index == d.index && calls[k].call_id.len() > 0
                && calls[k].call_id != d.id->Some_0@,
    ensures
        spec_tool_delta(calls, d, fresh) == Err::<Seq<PendingCallV>, ProxyErrorV>(
            ProxyErrorV::InvalidUpstream("conflicting call IDs for tool-call index "@ + decimal(d.index as nat)),
        ),
{
    let k = choose|k: int|
        0 <= k < calls.len() && (#[trigger] calls[k]).index == d.index && calls[k].call_id.len() > 0
            && calls[k].call_id != d.id->Some_0@;
    lemma_call_slot(calls, d.index as nat, 0);
    let p = call_slot(calls, d.index as nat);
    if p < k {
        assert(calls[p].index < calls[k].index);
    }
}

/// Every fresh item id is a `fc_` identifier.
pub open spec fn fresh_ids(prefix: Seq<char>, fresh: Seq<Seq<char>>) -> bool {
    forall|i: int| 0 <= i < fresh.len() ==> is_prefixed_id(prefix, #[trigger] fresh[i])
}

proof fn lemma_tool_delta_sorted(calls: Seq<PendingCallV>, d: ChatToolCallDelta, fresh: Seq<char>)
    requires
        calls_sorted(calls),
    ensures
        spec_tool_delta(calls, d, fresh) matches Ok(c) ==> calls_sorted(c),
{
    lemma_call_slot(calls, d.index as nat, 0);
}

proof fn lemma_tool_deltas_sorted(
    calls: Seq<PendingCallV>,
    deltas: Seq<ChatToolCallDelta>,
    fresh: Seq<Seq<char>>,
)
    requires
        calls_sorted(calls),
    ensures
        spec_tool_deltas(calls, deltas, fresh) matches Ok(c) ==> calls_sorted(c),
    decreases deltas.len(),
{
    if deltas.len() > 0 {
        lemma_tool_deltas_sorted(calls, deltas.drop_last(), fresh);
        if let Ok(c) = spec_tool_deltas(calls, deltas.drop_last(), fresh) {
            lemma_tool_delta_sorted(c, deltas.last(), fresh[deltas.len() - 1]);
        }
    }
}

proof fn lemma_tool_deltas_fresh_prefix(
    calls: Seq<PendingCallV>,
    deltas: Seq<ChatToolCallDelta>,
    fresh: Seq<Seq<char>>,
    more: Seq<Seq<char>>,
)
    requires
        deltas.len() <= fresh.len(),
    ensures
        spec_tool_deltas(calls, deltas, fresh) == spec_tool_deltas(calls, deltas, fresh + more),
    decreases deltas.len(),
{
    if deltas.len() > 0 {
        lemma_tool_deltas_fresh_prefix(calls, deltas.drop_last(), fresh, more);
        assert((fresh + more)[deltas.len() - 1] == fresh[deltas.len() - 1]);
    }
}

/// An identifier of the right shape, used where no fresh one is drawn.
pub open spec fn sample_id(prefix: Seq<char>) -> Seq<char> {
    prefix + seq!['_'] + Seq::new(32, |i: int| '0')
}

proof fn lemma_sample_id(prefix: Seq<char>)
    ensures
        is_prefixed_id(prefix, sample_id(prefix)),
{
    let id = sample_id(prefix);
    assert(id.subrange(0, prefix.len() as int) =~= prefix);
    assert(id.subrange(prefix.len() as int + 1, id.len() as int) =~= Seq::new(32, |i: int| '0'));
}

fn find_call_slot(calls: &Vec<PendingToolCall>, index: usize) -> (p: usize)
    ensures
        p as int == call_slot(calls_view(calls@), index as nat),
{
    let ghost v = calls_view(calls@);
    let mut i: usize = 0;
    while i < calls.len() && calls[i].index < index
        invariant
            v == calls_view(calls@),
            i <= calls@.len(),
            call_slot(v, index as nat) == call_slot_from(v, index as nat, i as int),
        decreases calls@.len() - i,
    {
        assert(v[i as int].index == calls@[i as int].index);
        i += 1;
    }
    proof {
        if i < calls@.len() {
            assert(v[i as int].index == calls@[i as int].index);
        }
    }
    i
}

fn push_fragment(field: &mut String, s: &Option<String>)
    ensures
        final(field)@ == old(field)@ + fragment(*s),
{
    match s {
        Some(v) => field.append(v.as_str()),
        None => {
            assert(old(field)@ + Seq::<char>::empty() =~= old(field)@);
        },
    }
}

fn push_tool_delta(calls: &mut Vec<PendingToolCall>, delta: &ChatToolCallDelta) -> (res: Result<(), ProxyError>)
    ensures
        exists|f: Seq<char>|
            is_prefixed_id("fc"@, f) && match #[trigger] spec_tool_delta(
                calls_view(old(calls)@),
                *delta,
                f,
            ) {
                Ok(c) => res is Ok && calls_view(final(calls)@) == c,
                Err(e) => res matches Err(err) && err@ == e && final(calls)@ == old(calls)@,
            },
{
    let ghost old_calls = calls_view(calls@);
    let p = find_call_slot(calls, delta.index);
    proof {
        lemma_call_slot(old_calls, delta.index as nat, 0);
    }
    let found = p < calls.len() && calls[p].index == delta.index;
    let mut call = if found {
        if let Some(id) = &delta.id {
            if !calls[p].call_id.as_str().is_empty() && !str_is(calls[p].call_id.as_str(), id.as_str()) {
                let msg = concat2(
                    "conflicting call IDs for tool-call index ",
                    decimal_string(delta.index as u64).as_str(),
                );
                proof {
                    lemma_sample_id("fc"@);
                    assert(spec_tool_delta(old_calls, *delta, sample_id("fc"@)) is Err);
                }
                return Err(ProxyError::InvalidUpstream(msg));
            }
        }
        calls.remove(p)
    } else {
        PendingToolCall {
            index: delta.index,
            item_id: prefixed_id("fc"),
            call_id: String::new(),
            name: String::new(),
            arguments: String::new(),
        }
    };
    let ghost fresh = if found {
        sample_id("fc"@)
    } else {
        call@.item_id
    };
    proof {
        lemma_sample_id("fc"@);
    }
    if let Some(id) = &delta.id {
        if call.call_id.as_str().is_empty() {
            call.call_id = id.clone();
        }
    }
    push_fragment(&mut call.name, &delta.name);
    push_fragment(&mut call.arguments, &delta.arguments);
    let ghost c = call@;
    calls.insert(p, call);
    proof {
        if found {
            assert(calls_view(calls@) =~= old_calls.update(p as int, c));
        } else {
            assert(calls_view(calls@) =~= old_calls.insert(p as int, c));
        }
        assert(spec_tool_delta(old_calls, *delta, fresh) == Ok::<Seq<PendingCallV>, ProxyErrorV>(
            calls_view(calls@),
        ));
    }
    Ok(())
}


fn push_tool_deltas(calls: &mut Vec<PendingToolCall>, deltas: &Vec<ChatToolCallDelta>) -> (res: Result<
    (),
    ProxyError,
>)
    ensures
        exists|fresh: Seq<Seq<char>>|
            fresh_ids("fc"@, fresh) && match #[trigger] spec_tool_deltas(
                calls_view(old(calls)@),
                deltas@,
                fresh,
            ) {
                Ok(c) => res is Ok && calls_view(final(calls)@) == c,
                Err(e) => res matches Err(err) && err@ == e,
            },
{
    let ghost calls0 = calls_view(calls@);
    let ghost mut fresh: Seq<Seq<char>> = Seq::empty();
    let n = deltas.len();
    let mut i: usize = 0;
    assert(deltas@.subrange(0, 0) =~= Seq::<ChatToolCallDelta>::empty());
    while i < n
        invariant
            n == deltas@.len(),
            i <= n,
            fresh.len() == i,
            fresh_ids("fc"@, fresh),
            calls0 == calls_view(old(calls)@),
            spec_tool_deltas(calls0, deltas@.subrange(0, i as int), fresh) == Ok::<
                Seq<PendingCallV>,
                ProxyErrorV,
            >(calls_view(calls@)),
        decreases n - i,
    {
        let ghost before = calls_view(calls@);
        let r = push_tool_delta(calls, &deltas[i]);
        let ghost f = choose|f: Seq<char>|
            is_prefixed_id("fc"@, f) && match #[trigger] spec_tool_delta(before, deltas@[i as int], f) {
                Ok(c) => r is Ok && calls_view(calls@) == c,
                Err(e) => r matches Err(err) && err@ == e,
            };
        proof {
            let prefix = deltas@.subrange(0, i + 1);
            assert(prefix.drop_last() =~= deltas@.subrange(0, i as int));
            assert(prefix.last() == deltas@[i as int]);
            lemma_tool_deltas_fresh_prefix(calls0, deltas@.subrange(0, i as int), fresh, seq![f]);
            assert(fresh + seq![f] =~= fresh.push(f));
            fresh = fresh.push(f);
            assert(fresh[i as int] == f);
            assert(fresh_ids("fc"@, fresh));
        }
        match r {
            Ok(()) => {},
            Err(e) => {
                proof {
                    lemma_tool_deltas_error_sticks(calls0, deltas@, fresh, i + 1);
                    assert(spec_tool_deltas(calls0, deltas@, fresh) == Err::<
                        Seq<PendingCallV>,
                        ProxyErrorV,
                    >(e@));
                }
                return Err(e);
            },
        }
        i += 1;
    }
    proof {
        assert(deltas@.subrange(0, n as int) =~= deltas@);
    }
    Ok(())
}

/// The state of a translation.
pub struct TranslatorV {
    pub response_id: Seq<char>,
    pub message_id: Seq<char>,
    pub message_output_index: Option<nat>,
    pub next_output_index: nat,
    pub reasoning: ReasoningV,
    pub text: Seq<char>,
    pub calls: Seq<PendingCallV>,
    pub finish_reason: Option<Seq<char>>,
    pub usage: Option<ChatUsage>,
}

pub open spec fn started(i: Option<nat>) -> nat {
    if i is Some {
        1
    } else {
        0
    }
}

/// While the reply streams, output indices go to the started items in turn:
/// each started item has its own index below the next free one.
pub open spec fn translator_wf(s: TranslatorV) -> bool {
    &&& calls_sorted(s.calls)
    &&& s.next_output_index == started(s.reasoning.output_index) + started(s.message_output_index)
    &&& (s.reasoning.output_index matches Some(r) ==> r < s.next_output_index)
    &&& (s.message_output_index matches Some(m) ==> m < s.next_output_index)
    &&& (s.reasoning.output_index matches Some(r) ==> s.message_output_index matches Some(m) ==> r
        != m)
}

/// The first content delta starts the assistant message at the next index.
pub open spec fn spec_start_message(s: TranslatorV) -> (TranslatorV, nat, Seq<ResponseEventV>) {
    match s.message_output_index {
        Some(i) => (s, i, Seq::empty()),
        None => (
            TranslatorV {
                message_output_index: Some(s.next_output_index),
                next_output_index: s.next_output_index + 1,
                ..s
            },
            s.next_output_index,
            seq![ResponseEventV::MessageAdded { output_index: s.next_output_index, item_id: s.message_id }],
        ),
    }
}

pub open spec fn refusal_message() -> Seq<char> {
    "Chat refusal content cannot be represented by the V1 Responses profile"@
}

/// One delta of the single choice: reasoning text, then assistant text, then
/// tool-call fragments, then the finish reason, which may be repeated but
/// not changed.
/// The reasoning part of a delta.
pub open spec fn spec_reasoning_stage(s: TranslatorV, reasoning: Option<Seq<char>>) -> Result<
    (TranslatorV, Seq<ResponseEventV>),
    ProxyErrorV,
> {
    if reasoning matches Some(rc) && rc.len() > 0 {
        match spec_reasoning_delta(s.reasoning, reasoning->Some_0, s.next_output_index) {
            Err(e) => Err(e),
            Ok((r, n, ev)) => Ok((TranslatorV { reasoning: r, next_output_index: n, ..s }, ev)),
        }
    } else {
        Ok((s, Seq::<ResponseEventV>::empty()))
    }
}

/// The assistant-text part of a delta.
pub open spec fn spec_content_stage(s: TranslatorV, content: Option<Seq<char>>) -> (
    TranslatorV,
    Seq<ResponseEventV>,
) {
    if content matches Some(ct) && ct.len() > 0 {
        let (sm, idx, evm) = spec_start_message(s);
        (
            TranslatorV { text: sm.text + content->Some_0, ..sm },
            evm.push(
                ResponseEventV::TextDelta {
                    output_index: idx,
                    item_id: s.message_id,
                    delta: content->Some_0,
                },
            ),
        )
    } else {
        (s, Seq::<ResponseEventV>::empty())
    }
}

/// The finish-reason part of a delta: it may be repeated but not changed.
pub open spec fn spec_finish_stage(s: TranslatorV, finish: Option<Seq<char>>) -> Result<
    TranslatorV,
    ProxyErrorV,
> {
    match finish {
        None => Ok(s),
        Some(fr) => if s.finish_reason matches Some(ex) && ex != fr {
            Err(
                ProxyErrorV::InvalidUpstream(
                    "conflicting finish reasons "@ + str_debug(s.finish_reason->Some_0) + " and "@
                        + str_debug(fr),
                ),
            )
        } else {
            Ok(TranslatorV { finish_reason: Some(fr), ..s })
        },
    }
}

/// One delta of the single choice: reasoning text, then assistant text, then
/// tool-call fragments, then the finish reason.
pub open spec fn spec_apply_delta(
    s: TranslatorV,
    reasoning: Option<Seq<char>>,
    content: Option<Seq<char>>,
    deltas: Seq<ChatToolCallDelta>,
    finish: Option<Seq<char>>,
    fresh: Seq<Seq<char>>,
) -> Result<(TranslatorV, Seq<ResponseEventV>), ProxyErrorV> {
    match spec_reasoning_stage(s, reasoning) {
        Err(e) => Err(e),
        Ok((s1, ev1)) => {
            let (s2, ev2) = spec_content_stage(s1, content);
            match spec_tool_deltas(s2.calls, deltas, fresh) {
                Err(e) => Err(e),
                Ok(c) => match spec_finish_stage(TranslatorV { calls: c, ..s2 }, finish) {
                    Err(e) => Err(e),
                    Ok(s4) => Ok((s4, ev1 + ev2)),
                },
            }
        },
    }
}

pub open spec fn chunk_deltas(tool_calls: Option<Vec<ChatToolCallDelta>>) -> Seq<ChatToolCallDelta> {
    match tool_calls {
        Some(v) => v@,
        None => Seq::empty(),
    }
}

/// A streamed chunk: its usage is kept; it carries at most one choice,
/// which must be choice 0 and carry no refusal.
pub open spec fn spec_push_chunk(s: TranslatorV, c: ChatChunk, fresh: Seq<Seq<char>>) -> Result<
    (TranslatorV, Seq<ResponseEventV>),
    ProxyErrorV,
> {
    let s0 = if c.usage is Some {
        TranslatorV { usage: c.usage, ..s }
    } else {
        s
    };
    if c.choices.len() > 1 {
        Err(ProxyErrorV::InvalidUpstream("received more than one Chat completion choice"@))
    } else if c.choices.len() == 0 {
        Ok((s0, Seq::empty()))
    } else {
        let ch = c.choices[0];
        if ch.index != 0 {
            Err(
                ProxyErrorV::InvalidUpstream(
                    "received unsupported Chat choice index "@ + decimal(ch.index as nat),
                ),
            )
        } else if ch.delta.refusal matches Some(r) && r@.len() > 0 {
            Err(ProxyErrorV::Unsupported(refusal_message()))
        } else {
            spec_apply_delta(
                s0,
                opt_string_view(ch.delta.reasoning_content),
                opt_string_view(ch.delta.content),
                chunk_deltas(ch.delta.tool_calls),
                opt_string_view(ch.finish_reason),
                fresh,
            )
        }
    }
}

proof fn lemma_tool_deltas_error_sticks(
    calls: Seq<PendingCallV>,
    deltas: Seq<ChatToolCallDelta>,
    fresh: Seq<Seq<char>>,
    k: int,
)
    requires
        0 <= k <= deltas.len(),
        spec_tool_deltas(calls, deltas.subrange(0, k), fresh) is Err,
    ensures
        spec_tool_deltas(calls, deltas, fresh) == spec_tool_deltas(calls, deltas.subrange(0, k), fresh),
    decreases deltas.len() - k,
{
    if k < deltas.len() {
        let next = deltas.subrange(0, k + 1);
        assert(next.drop_last() =~= deltas.subrange(0, k));
        lemma_tool_deltas_error_sticks(calls, deltas, fresh, k + 1);
    } else {
        assert(deltas.subrange(0, k) =~= deltas);
    }
}

proof fn lemma_apply_delta_wf(
    s: TranslatorV,
    reasoning: Option<Seq<char>>,
    content: Option<Seq<char>>,
    deltas: Seq<ChatToolCallDelta>,
    finish: Option<Seq<char>>,
    fresh: Seq<Seq<char>>,
)
    requires
        translator_wf(s),
    ensures
        spec_apply_delta(s, reasoning, content, deltas, finish, fresh) matches Ok((s2, _)) ==> (
        translator_wf(s2) && s2.response_id == s.response_id && s2.message_id == s.message_id
            && s2.reasoning.id == s.reasoning.id && s2.reasoning.policy == s.reasoning.policy),
{
    if let Ok((s1, _)) = spec_reasoning_stage(s, reasoning) {
        let (s2, _) = spec_content_stage(s1, content);
        lemma_tool_deltas_sorted(s2.calls, deltas, fresh);
    }
}

/// Translates one Chat Completions reply into Responses events.
pub struct StreamTranslator {
    response_id: String,
    message_id: String,
    message_output_index: Option<usize>,
    next_output_index: usize,
    reasoning: ReasoningState,
    text: String,
    calls: Vec<PendingToolCall>,
    finish_reason: Option<String>,
    usage: Option<ChatUsage>,
}

impl View for StreamTranslator {
    type V = TranslatorV;

    closed spec fn view(&self) -> TranslatorV {
        TranslatorV {
            response_id: self.response_id@,
            message_id: self.message_id@,
            message_output_index: match self.message_output_index {
                Some(i) => Some(i as nat),
                None => None,
            },
            next_output_index: self.next_output_index as nat,
            reasoning: self.reasoning@,
            text: self.text@,
            calls: calls_view(self.calls@),
            finish_reason: opt_string_view(self.finish_reason),
            usage: self.usage,
        }
    }
}

impl StreamTranslator {
    pub open spec fn wf(&self) -> bool {
        translator_wf(self@)
    }

    /// A translator with fresh response, message and reasoning ids and no output.
    pub fn new(policy: ReasoningContentPolicy) -> (res: Self)
        ensures
            res.wf(),
            is_prefixed_id("resp"@, res@.response_id),
            is_prefixed_id("msg"@, res@.message_id),
            is_prefixed_id("rs"@, res@.reasoning.id),
            res@.reasoning.policy == policy,
            res@.reasoning.output_index is None,
            res@.reasoning.text.len() == 0,
            res@.message_output_index is None,
            res@.next_output_index == 0,
            res@.text.len() == 0,
            res@.calls.len() == 0,
            res@.finish_reason is None,
            res@.usage is None,
    {
        let res = StreamTranslator {
            response_id: prefixed_id("resp"),
            message_id: prefixed_id("msg"),
            message_output_index: None,
            next_output_index: 0,
            reasoning: ReasoningState::new(policy),
            text: String::new(),
            calls: Vec::new(),
            finish_reason: None,
            usage: None,
        };
        assert(res@.calls =~= Seq::<PendingCallV>::empty());
        res
    }

    /// The `response.created` event that opens the stream.
    pub fn created_event(&self) -> (res: ResponseEvent)
        ensures
            res@ == (ResponseEventV::Created { response_id: self@.response_id }),
    {
        ResponseEvent::Created { response_id: self.response_id.clone() }
    }

    /// The `response.failed` event that ends a failed stream.
    pub fn failed_event(&self, message: String) -> (res: ResponseEvent)
        ensures
            res@ == (ResponseEventV::Failed { response_id: self@.response_id, message: message@ }),
    {
        ResponseEvent::Failed { response_id: self.response_id.clone(), message }
    }

    /// Whether the upstream has given a finish reason.
    pub fn has_finish_reason(&self) -> (res: bool)
        ensures
            res == self@.finish_reason is Some,
    {
        self.finish_reason.is_some()
    }

    /// The number of tool calls being assembled.
    pub fn tool_call_count(&self) -> (res: usize)
        ensures
            res == self@.calls.len(),
    {
        self.calls.len()
    }

    fn start_message(&mut self, events: &mut Vec<ResponseEvent>) -> (idx: usize)
        requires
            old(self).wf(),
        ensures
            ({
                let (s, i, evs) = spec_start_message(old(self)@);
                final(self)@ == s && idx == i && events_view(final(events)@) == events_view(
                    old(events)@,
                ) + evs
            }),
    {
        match self.message_output_index {
            Some(i) => {
                assert(events_view(events@) =~= events_view(events@) + Seq::<ResponseEventV>::empty());
                i
            },
            None => {
                let i = self.next_output_index;
                self.next_output_index = i + 1;
                self.message_output_index = Some(i);
                events.push(ResponseEvent::MessageAdded { output_index: i, item_id: self.message_id.clone() });
                proof {
                    let s = spec_start_message(old(self)@).0;
                    assert(events_view(events@) =~= events_view(old(events)@) + seq![
                        ResponseEventV::MessageAdded { output_index: i as nat, item_id: self@.message_id },
                    ]);
                    assert(self@ == s);
                }
                i
            },
        }
    }

    fn apply_delta(
        &mut self,
        reasoning: Option<String>,
        content: Option<String>,
        deltas: &Vec<ChatToolCallDelta>,
        finish: Option<String>,
    ) -> (res: Result<Vec<ResponseEvent>, ProxyError>)
        requires
            old(self).wf(),
        ensures
            exists|fresh: Seq<Seq<char>>|
                fresh_ids("fc"@, fresh) && match #[trigger] spec_apply_delta(
                    old(self)@,
                    opt_string_view(reasoning),
                    opt_string_view(content),
                    deltas@,
                    opt_string_view(finish),
                    fresh,
                ) {
                    Ok((s, evs)) => res matches Ok(v) && final(self)@ == s && events_view(v@) == evs
                        && final(self).wf(),
                    Err(e) => res matches Err(err) && err@ == e && final(self)@.response_id == old(
                        self,
                    )@.response_id,
                },
    {
        let ghost s0 = self@;
        let mut events: Vec<ResponseEvent> = Vec::new();
        assert(events_view(events@) =~= Seq::<ResponseEventV>::empty());
        match reasoning {
            Some(rc) => {
                if !rc.as_str().is_empty() {
                    match self.reasoning.push_delta(rc, &mut self.next_output_index) {
                        Ok(evs) => {
                            events = evs;
                        },
                        Err(e) => {
                            proof {
                                lemma_sample_id("fc"@);
                                let w = seq![sample_id("fc"@)];
                                assert(fresh_ids("fc"@, w));
                                assert(spec_apply_delta(
                                    s0,
                                    opt_string_view(reasoning),
                                    opt_string_view(content),
                                    deltas@,
                                    opt_string_view(finish),
                                    w,
                                ) is Err);
                            }
                            return Err(e);
                        },
                    }
                }
            },
            None => {},
        }
        let ghost s1 = self@;
        let ghost ev1 = events_view(events@);
        assert(spec_reasoning_stage(s0, opt_string_view(reasoning)) == Ok::<
            (TranslatorV, Seq<ResponseEventV>),
            ProxyErrorV,
        >((s1, ev1)));
        match &content {
            Some(ct) => {
                if !ct.as_str().is_empty() {
                    let ghost before = events_view(events@);
                    let idx = self.start_message(&mut events);
                    let ghost started = events_view(events@);
                    self.text.append(ct.as_str());
                    let item_id = self.message_id.clone();
                    let delta = ct.clone();
                    let ev = ResponseEvent::TextDelta { output_index: idx, item_id, delta };
                    assert(ev@ == (ResponseEventV::TextDelta {
                        output_index: idx as nat,
                        item_id: s1.message_id,
                        delta: ct@,
                    }));
                    events.push(ev);
                    assert(events_view(events@) =~= started.push(ev@));
                }
            },
            None => {},
        }
        let ghost s2 = self@;
        let ghost calls2 = self@.calls;
        let ghost ev12 = events_view(events@);
        proof {
            let (t2, e2) = spec_content_stage(s1, opt_string_view(content));
            assert(ev12 =~= ev1 + e2);
            assert(s2 == t2);
        }
        let r = push_tool_deltas(&mut self.calls, deltas);
        let ghost fresh = choose|fresh: Seq<Seq<char>>|
            fresh_ids("fc"@, fresh) && match #[trigger] spec_tool_deltas(calls2, deltas@, fresh) {
                Ok(c) => r is Ok && calls_view(self.calls@) == c,
                Err(e) => r matches Err(err) && err@ == e,
            };
        match r {
            Ok(()) => {},
            Err(e) => {
                proof {
                    assert(spec_apply_delta(
                        s0,
                        opt_string_view(reasoning),
                        opt_string_view(content),
                        deltas@,
                        opt_string_view(finish),
                        fresh,
                    ) == Err::<(TranslatorV, Seq<ResponseEventV>), ProxyErrorV>(e@));
                }
                return Err(e);
            },
        }
        let ghost s3 = self@;
        match finish {
            None => {},
            Some(fr) => {
                let conflict = match &self.finish_reason {
                    Some(ex) => !str_is(ex.as_str(), fr.as_str()),
                    None => false,
                };
                if conflict {
                    let ex = match &self.finish_reason {
                        Some(ex) => debug_str(ex.as_str()),
                        None => String::new(),
                    };
                    let mut msg = concat2("conflicting finish reasons ", ex.as_str());
                    msg.append(" and ");
                    msg.append(debug_str(fr.as_str()).as_str());
                    proof {
                        assert(spec_finish_stage(s3, opt_string_view(finish)) is Err);
                        assert(spec_apply_delta(
                            s0,
                            opt_string_view(reasoning),
                            opt_string_view(content),
                            deltas@,
                            opt_string_view(finish),
                            fresh,
                        ) is Err);
                    }
                    return Err(ProxyError::InvalidUpstream(msg));
                }
                self.finish_reason = Some(fr);
            },
        }
        proof {
            lemma_apply_delta_wf(
                s0,
                opt_string_view(reasoning),
                opt_string_view(content),
                deltas@,
                opt_string_view(finish),
                fresh,
            );
            assert(spec_finish_stage(s3, opt_string_view(finish)) == Ok::<TranslatorV, ProxyErrorV>(
                self@,
            ));
            assert(spec_apply_delta(
                s0,
                opt_string_view(reasoning),
                opt_string_view(content),
                deltas@,
                opt_string_view(finish),
                fresh,
            ) == Ok::<(TranslatorV, Seq<ResponseEventV>), ProxyErrorV>((self@, events_view(events@))));
        }
        Ok(events)
    }
}


/// The tool calls of a buffered reply, as fragments: the i-th call is the
/// whole of tool-call index i.
pub open spec fn buffered_deltas(calls: Seq<BufferedChatToolCall>) -> Seq<ChatToolCallDelta> {
    Seq::new(
        calls.len(),
        |i: int|
            ChatToolCallDelta {
                index: i as usize,
                id: Some(calls[i].id),
                name: Some(calls[i].name),
                arguments: Some(calls[i].arguments),
            },
    )
}

/// A buffered (non-streamed) reply: its usage replaces any earlier one; it
/// must hold exactly one choice, choice 0, without a refusal. Its text and
/// reasoning go through the same path as a streamed delta, then its tool
/// calls, and its finish reason is taken as it stands.
pub open spec fn spec_push_buffered(
    s: TranslatorV,
    comp: BufferedChatCompletion,
    fresh: Seq<Seq<char>>,
) -> Result<(TranslatorV, Seq<ResponseEventV>), ProxyErrorV> {
    let s0 = TranslatorV { usage: comp.usage, ..s };
    if comp.choices.len() != 1 {
        Err(
            ProxyErrorV::InvalidUpstream(
                "expected exactly one buffered Chat choice, received "@ + decimal(
                    comp.choices.len() as nat,
                ),
            ),
        )
    } else {
        let ch = comp.choices[0];
        if ch.index != 0 {
            Err(
                ProxyErrorV::InvalidUpstream(
                    "received unsupported buffered Chat choice index "@ + decimal(ch.index as nat),
                ),
            )
        } else if ch.message.refusal matches Some(r) && r@.len() > 0 {
            Err(ProxyErrorV::Unsupported(refusal_message()))
        } else {
            let r1 = if ch.message.reasoning_content is Some || ch.message.content is Some {
                spec_apply_delta(
                    s0,
                    opt_string_view(ch.message.reasoning_content),
                    opt_string_view(ch.message.content),
                    Seq::empty(),
                    None,
                    Seq::empty(),
                )
            } else {
                Ok((s0, Seq::<ResponseEventV>::empty()))
            };
            match r1 {
                Err(e) => Err(e),
                Ok((s1, ev)) => match spec_tool_deltas(
                    s1.calls,
                    buffered_deltas(ch.message.tool_calls@),
                    fresh,
                ) {
                    Err(e) => Err(e),
                    Ok(c) => Ok(
                        (
                            TranslatorV {
                                calls: c,
                                finish_reason: opt_string_view(ch.finish_reason),
                                ..s1
                            },
                            ev,
                        ),
                    ),
                },
            }
        }
    }
}

proof fn lemma_no_deltas(calls: Seq<PendingCallV>, fresh: Seq<Seq<char>>)
    ensures
        spec_tool_deltas(calls, Seq::empty(), fresh) == Ok::<Seq<PendingCallV>, ProxyErrorV>(calls),
{
}

fn buffered_call_deltas(calls: Vec<BufferedChatToolCall>) -> (res: Vec<ChatToolCallDelta>)
    ensures
        res@ == buffered_deltas(calls@),
{
    let ghost all = calls@;
    let n = calls.len();
    let mut rest = calls;
    let mut out: Vec<ChatToolCallDelta> = Vec::new();
    let mut i: usize = 0;
    while i < n
        invariant
            n == all.len(),
            i <= n,
            rest@ == all.subrange(i as int, n as int),
            out@ == buffered_deltas(all).subrange(0, i as int),
        decreases n - i,
    {
        let call = rest.remove(0);
        assert(call == all[i as int]);
        let BufferedChatToolCall { id, name, arguments } = call;
        out.push(ChatToolCallDelta { index: i, id: Some(id), name: Some(name), arguments: Some(arguments) });
        proof {
            assert(rest@ =~= all.subrange(i + 1, n as int));
            assert(out@ =~= buffered_deltas(all).subrange(0, i + 1));
        }
        i += 1;
    }
    assert(buffered_deltas(all).subrange(0, n as int) =~= buffered_deltas(all));
    out
}

impl StreamTranslator {
    /// Takes one streamed Chat chunk and gives the events it produces. A new
    /// tool call gets a fresh `fc_` item id. After an error the translator
    /// only serves to report the failure.
    pub fn push_chunk(&mut self, chunk: ChatChunk) -> (res: Result<Vec<ResponseEvent>, ProxyError>)
        requires
            old(self).wf(),
        ensures
            exists|fresh: Seq<Seq<char>>|
                fresh_ids("fc"@, fresh) && match #[trigger] spec_push_chunk(old(self)@, chunk, fresh) {
                    Ok((s, evs)) => res matches Ok(v) && final(self)@ == s && events_view(v@) == evs
                        && final(self).wf(),
                    Err(e) => res matches Err(err) && err@ == e && final(self)@.response_id == old(
                        self,
                    )@.response_id,
                },
    {
        let ghost c = chunk;
        let ChatChunk { choices, usage } = chunk;
        if usage.is_some() {
            self.usage = usage;
        }
        let ghost s0 = self@;
        proof {
            assert(fresh_ids("fc"@, Seq::<Seq<char>>::empty()));
        }
        if choices.len() > 1 {
            assert(spec_push_chunk(old(self)@, c, Seq::empty()) is Err);
            return Err(
                ProxyError::InvalidUpstream(
                    String::from_str("received more than one Chat completion choice"),
                ),
            );
        }
        if choices.len() == 0 {
            let v: Vec<ResponseEvent> = Vec::new();
            assert(events_view(v@) =~= Seq::<ResponseEventV>::empty());
            assert(spec_push_chunk(old(self)@, c, Seq::empty()) == Ok::<
                (TranslatorV, Seq<ResponseEventV>),
                ProxyErrorV,
            >((self@, events_view(v@))));
            return Ok(v);
        }
        let mut choices = choices;
        let choice = choices.remove(0);
        let ChatChoice { index, delta, finish_reason } = choice;
        if index != 0 {
            let msg = concat2(
                "received unsupported Chat choice index ",
                decimal_string(index as u64).as_str(),
            );
            assert(spec_push_chunk(old(self)@, c, Seq::empty()) is Err);
            return Err(ProxyError::InvalidUpstream(msg));
        }
        let ChatDelta { content, reasoning_content, refusal, tool_calls } = delta;
        if let Some(r) = &refusal {
            if !r.as_str().is_empty() {
                assert(spec_push_chunk(old(self)@, c, Seq::empty()) is Err);
                return Err(
                    ProxyError::Unsupported(
                        String::from_str(
                            "Chat refusal content cannot be represented by the V1 Responses profile",
                        ),
                    ),
                );
            }
        }
        let deltas = match tool_calls {
            Some(v) => v,
            None => Vec::new(),
        };
        assert(deltas@ =~= chunk_deltas(c.choices[0].delta.tool_calls));
        let r = self.apply_delta(reasoning_content, content, &deltas, finish_reason);
        proof {
            let fresh = choose|fresh: Seq<Seq<char>>|
                fresh_ids("fc"@, fresh) && match #[trigger] spec_apply_delta(
                    s0,
                    opt_string_view(reasoning_content),
                    opt_string_view(content),
                    deltas@,
                    opt_string_view(finish_reason),
                    fresh,
                ) {
                    Ok((s, evs)) => r matches Ok(v) && self@ == s && events_view(v@) == evs && self.wf(),
                    Err(e) => r matches Err(err) && err@ == e && self@.response_id == s0.response_id,
                };
            assert(spec_push_chunk(old(self)@, c, fresh) == spec_apply_delta(
                s0,
                opt_string_view(reasoning_content),
                opt_string_view(content),
                deltas@,
                opt_string_view(finish_reason),
                fresh,
            ));
        }
        r
    }

    /// Takes a buffered Chat reply and gives the events of its output so far.
    pub fn push_buffered(&mut self, completion: BufferedChatCompletion) -> (res: Result<
        Vec<ResponseEvent>,
        ProxyError,
    >)
        requires
            old(self).wf(),
        ensures
            exists|fresh: Seq<Seq<char>>|
                fresh_ids("fc"@, fresh) && match #[trigger] spec_push_buffered(
                    old(self)@,
                    completion,
                    fresh,
                ) {
                    Ok((s, evs)) => res matches Ok(v) && final(self)@ == s && events_view(v@) == evs
                        && final(self).wf(),
                    Err(e) => res matches Err(err) && err@ == e && final(self)@.response_id == old(
                        self,
                    )@.response_id,
                },
    {
        let ghost comp = completion;
        let BufferedChatCompletion { choices, usage } = completion;
        self.usage = usage;
        let ghost s0 = self@;
        proof {
            assert(fresh_ids("fc"@, Seq::<Seq<char>>::empty()));
        }
        if choices.len() != 1 {
            let msg = concat2(
                "expected exactly one buffered Chat choice, received ",
                decimal_string(choices.len() as u64).as_str(),
            );
            assert(spec_push_buffered(old(self)@, comp, Seq::empty()) is Err);
            return Err(ProxyError::InvalidUpstream(msg));
        }
        let mut choices = choices;
        let choice = choices.remove(0);
        let BufferedChatChoice { index, message, finish_reason } = choice;
        if index != 0 {
            let msg = concat2(
                "received unsupported buffered Chat choice index ",
                decimal_string(index as u64).as_str(),
            );
            assert(spec_push_buffered(old(self)@, comp, Seq::empty()) is Err);
            return Err(ProxyError::InvalidUpstream(msg));
        }
        let BufferedChatMessage { content, reasoning_content, refusal, tool_calls } = message;
        if let Some(r) = &refusal {
            if !r.as_str().is_empty() {
                assert(spec_push_buffered(old(self)@, comp, Seq::empty()) is Err);
                return Err(
                    ProxyError::Unsupported(
                        String::from_str(
                            "Chat refusal content cannot be represented by the V1 Responses profile",
                        ),
                    ),
                );
            }
        }
        let ghost rc = opt_string_view(reasoning_content);
        let ghost ct = opt_string_view(content);
        let mut events: Vec<ResponseEvent> = Vec::new();
        assert(events_view(events@) =~= Seq::<ResponseEventV>::empty());
        if reasoning_content.is_some() || content.is_some() {
            let mut synthetic: Vec<ChatChoice> = Vec::new();
            synthetic.push(
                ChatChoice {
                    index: 0,
                    delta: ChatDelta { content, reasoning_content, refusal: None, tool_calls: None },
                    finish_reason: None,
                },
            );
            let chunk = ChatChunk { choices: synthetic, usage: None };
            let r = self.push_chunk(chunk);
            proof {
                let fresh = choose|fresh: Seq<Seq<char>>|
                    fresh_ids("fc"@, fresh) && match #[trigger] spec_push_chunk(s0, chunk, fresh) {
                        Ok((s, evs)) => r matches Ok(v) && self@ == s && events_view(v@) == evs
                            && self.wf(),
                        Err(e) => r matches Err(err) && err@ == e && self@.response_id
                            == s0.response_id,
                    };
                assert(chunk_deltas(chunk.choices[0].delta.tool_calls) =~= Seq::<ChatToolCallDelta>::empty());
                lemma_no_deltas(s0.calls, fresh);
                lemma_no_deltas(s0.calls, Seq::empty());
                assert(spec_push_chunk(s0, chunk, fresh) == spec_apply_delta(
                    s0,
                    rc,
                    ct,
                    Seq::empty(),
                    None,
                    Seq::empty(),
                ));
            }
            match r {
                Ok(evs) => {
                    events = evs;
                },
                Err(e) => {
                    assert(spec_push_buffered(old(self)@, comp, Seq::empty()) is Err);
                    return Err(e);
                },
            }
        }
        let ghost s1 = self@;
        let ghost ev = events_view(events@);
        let deltas = buffered_call_deltas(tool_calls);
        let r = push_tool_deltas(&mut self.calls, &deltas);
        let ghost fresh = choose|fresh: Seq<Seq<char>>|
            fresh_ids("fc"@, fresh) && match #[trigger] spec_tool_deltas(s1.calls, deltas@, fresh) {
                Ok(c) => r is Ok && calls_view(self.calls@) == c,
                Err(e) => r matches Err(err) && err@ == e,
            };
        match r {
            Ok(()) => {},
            Err(e) => {
                assert(spec_push_buffered(old(self)@, comp, fresh) == Err::<
                    (TranslatorV, Seq<ResponseEventV>),
                    ProxyErrorV,
                >(e@));
                return Err(e);
            },
        }
        self.finish_reason = finish_reason;
        proof {
            lemma_tool_deltas_sorted(s1.calls, deltas@, fresh);
            assert(spec_push_buffered(old(self)@, comp, fresh) == Ok::<
                (TranslatorV, Seq<ResponseEventV>),
                ProxyErrorV,
            >((self@, events_view(events@))));
        }
        Ok(events)
    }
}


/// The Responses usage of a Chat usage report; absent details count zero.
pub open spec fn response_usage(u: ChatUsage) -> ResponseUsage {
    ResponseUsage {
        input_tokens: u.prompt_tokens,
        cached_tokens: match u.cached_tokens {
            Some(c) => c,
            None => 0,
        },
        output_tokens: u.completion_tokens,
        reasoning_tokens: match u.reasoning_tokens {
            Some(r) => r,
            None => 0,
        },
        total_tokens: u.total_tokens,
    }
}

pub open spec fn opt_response_usage(u: Option<ChatUsage>) -> Option<ResponseUsage> {
    match u {
        Some(v) => Some(response_usage(v)),
        None => None,
    }
}

fn to_response_usage(u: Option<ChatUsage>) -> (res: Option<ResponseUsage>)
    ensures
        res == opt_response_usage(u),
{
    match u {
        None => None,
        Some(v) => Some(
            ResponseUsage {
                input_tokens: v.prompt_tokens,
                cached_tokens: match v.cached_tokens {
                    Some(c) => c,
                    None => 0,
                },
                output_tokens: v.completion_tokens,
                reasoning_tokens: match v.reasoning_tokens {
                    Some(r) => r,
                    None => 0,
                },
                total_tokens: v.total_tokens,
            },
        ),
    }
}

/// The finishing events of the reasoning item and the assistant message,
/// in output-index order.
pub open spec fn spec_item_events(s: TranslatorV) -> Seq<ResponseEventV> {
    let reasoning = spec_reasoning_finish(s.reasoning);
    let message = match s.message_output_index {
        None => Seq::<ResponseEventV>::empty(),
        Some(m) => seq![ResponseEventV::MessageDone { output_index: m, item_id: s.message_id, text: s.text }],
    };
    if s.reasoning.output_index matches Some(r) && s.message_output_index matches Some(m) && m < r {
        message + reasoning
    } else {
        reasoning + message
    }
}

/// Completes one pending call at output index `next`: it needs a name; a
/// call without an id gets `fresh`; the registry restores its Responses form.
/// Gives the event and the call with its id.
pub open spec fn spec_finish_call(c: PendingCallV, reg: RegistryV, next: nat, fresh: Seq<char>) -> (
    Result<ResponseEventV, ProxyErrorV>,
    PendingCallV,
) {
    if c.name.len() == 0 {
        (Err(ProxyErrorV::InvalidUpstream("tool call completed without a function name"@)), c)
    } else {
        let cid = if c.call_id.len() == 0 {
            fresh
        } else {
            c.call_id
        };
        let c2 = PendingCallV { call_id: cid, ..c };
        match spec_response_item(reg, c.item_id, cid, c.name, c.arguments) {
            Err(e) => (Err(e), c2),
            Ok(item) => (Ok(ResponseEventV::ToolCallDone { output_index: next, item }), c2),
        }
    }
}

/// Completes the first `k` pending calls in order, each at the next free
/// output index, stopping at the first error. Gives the events, the calls
/// and the next free index.
pub open spec fn spec_finish_calls(
    calls: Seq<PendingCallV>,
    reg: RegistryV,
    next: nat,
    fresh: Seq<Seq<char>>,
    k: nat,
) -> (Result<Seq<ResponseEventV>, ProxyErrorV>, Seq<PendingCallV>, nat)
    decreases k,
{
    if k == 0 {
        (Ok(Seq::empty()), calls, next)
    } else {
        let (r, cs, n) = spec_finish_calls(calls, reg, next, fresh, (k - 1) as nat);
        match r {
            Err(e) => (Err(e), cs, n),
            Ok(evs) => {
                let (r2, c2) = spec_finish_call(calls[k - 1], reg, n, fresh[k - 1]);
                match r2 {
                    Err(e) => (Err(e), cs.update(k - 1, c2), n),
                    Ok(ev) => (Ok(evs.push(ev)), cs.update(k - 1, c2), n + 1),
                }
            },
        }
    }
}

pub open spec fn content_filter_message() -> Seq<char> {
    "upstream Chat completion stopped because of content filtering"@
}

/// The end of a reply, decided by its finish reason: `length` makes the
/// response incomplete, `content_filter` makes it fail, `stop` (without tool
/// calls) and `tool_calls` (with at least one) complete it; anything else is
/// an error. A completed response ends with the finishing events of its
/// items in output-index order, then `response.completed`. Gives the events
/// and the state after.
pub open spec fn spec_finish(s: TranslatorV, reg: RegistryV, fresh: Seq<Seq<char>>) -> (
    Result<Seq<ResponseEventV>, ProxyErrorV>,
    TranslatorV,
) {
    match s.finish_reason {
        None => (Err(ProxyErrorV::InvalidUpstream("Chat response ended without finish_reason"@)), s),
        Some(fr) => if fr == "length"@ {
            (Ok(seq![ResponseEventV::Incomplete { response_id: s.response_id }]), s)
        } else if fr == "content_filter"@ {
            (
                Ok(
                    seq![
                        ResponseEventV::Failed {
                            response_id: s.response_id,
                            message: content_filter_message(),
                        },
                    ],
                ),
                s,
            )
        } else if fr == "stop"@ && s.calls.len() > 0 {
            (Err(ProxyErrorV::InvalidUpstream("finish_reason=stop accompanied by tool calls"@)), s)
        } else if fr == "tool_calls"@ && s.calls.len() == 0 {
            (Err(ProxyErrorV::InvalidUpstream("finish_reason=tool_calls without a tool call"@)), s)
        } else if fr != "stop"@ && fr != "tool_calls"@ {
            (
                Err(ProxyErrorV::InvalidUpstream("unsupported Chat finish_reason "@ + str_debug(fr))),
                s,
            )
        } else {
            spec_finish_completion(s, reg, fresh)
        },
    }
}

/// A reply that stops normally: its calls are completed, then its items'
/// finishing events and `response.completed` are emitted.
pub open spec fn spec_finish_completion(s: TranslatorV, reg: RegistryV, fresh: Seq<Seq<char>>) -> (
    Result<Seq<ResponseEventV>, ProxyErrorV>,
    TranslatorV,
) {
    let (r, cs, n) = spec_finish_calls(s.calls, reg, s.next_output_index, fresh, s.calls.len());
    let s2 = TranslatorV { calls: cs, next_output_index: n, ..s };
    match r {
        Err(e) => (Err(e), s2),
        Ok(call_events) => (
            Ok(
                spec_item_events(s) + call_events + seq![
                    ResponseEventV::Completed {
                        response_id: s.response_id,
                        usage: opt_response_usage(s.usage),
                    },
                ],
            ),
            s2,
        ),
    }
}

proof fn lemma_finish_calls_fresh_prefix(
    calls: Seq<PendingCallV>,
    reg: RegistryV,
    next: nat,
    fresh: Seq<Seq<char>>,
    more: Seq<Seq<char>>,
    k: nat,
)
    requires
        k <= fresh.len(),
    ensures
        spec_finish_calls(calls, reg, next, fresh, k) == spec_finish_calls(
            calls,
            reg,
            next,
            fresh + more,
            k,
        ),
    decreases k,
{
    if k > 0 {
        lemma_finish_calls_fresh_prefix(calls, reg, next, fresh, more, (k - 1) as nat);
        assert((fresh + more)[k - 1] == fresh[k - 1]);
    }
}

proof fn lemma_finish_calls_error_sticks(
    calls: Seq<PendingCallV>,
    reg: RegistryV,
    next: nat,
    fresh: Seq<Seq<char>>,
    k: nat,
    m: nat,
)
    requires
        k <= m,
        spec_finish_calls(calls, reg, next, fresh, k).0 is Err,
    ensures
        spec_finish_calls(calls, reg, next, fresh, m) == spec_finish_calls(calls, reg, next, fresh, k),
    decreases m - k,
{
    if k < m {
        lemma_finish_calls_error_sticks(calls, reg, next, fresh, k, (m - 1) as nat);
    }
}

proof fn lemma_finish_calls_shape(
    calls: Seq<PendingCallV>,
    reg: RegistryV,
    next: nat,
    fresh: Seq<Seq<char>>,
    k: nat,
)
    requires
        k <= calls.len(),
    ensures
        spec_finish_calls(calls, reg, next, fresh, k).1.len() == calls.len(),
        spec_finish_calls(calls, reg, next, fresh, k).1.subrange(k as int, calls.len() as int)
            == calls.subrange(k as int, calls.len() as int),
        spec_finish_calls(calls, reg, next, fresh, k).0 matches Ok(evs) ==> (
        spec_finish_calls(calls, reg, next, fresh, k).2 == next + k && evs.len() == k),
    decreases k,
{
    if k > 0 {
        lemma_finish_calls_shape(calls, reg, next, fresh, (k - 1) as nat);
        let cs = spec_finish_calls(calls, reg, next, fresh, (k - 1) as nat).1;
        let c2 = spec_finish_call(calls[k - 1], reg, spec_finish_calls(calls, reg, next, fresh, (k - 1) as nat).2, fresh[k - 1]).1;
        assert(cs.update(k - 1, c2).subrange(k as int, calls.len() as int) =~= cs.subrange(
            k as int,
            calls.len() as int,
        ));
        assert(cs.subrange(k as int, calls.len() as int) =~= cs.subrange(
            k - 1,
            calls.len() as int,
        ).drop_first());
        assert(calls.subrange(k as int, calls.len() as int) =~= calls.subrange(
            k - 1,
            calls.len() as int,
        ).drop_first());
    }
}

impl StreamTranslator {
    fn item_events(&self) -> (res: Vec<ResponseEvent>)
        requires
            self.wf(),
        ensures
            events_view(res@) == spec_item_events(self@),
    {
        let mut reasoning = self.reasoning.finish_events();
        let mut message: Vec<ResponseEvent> = Vec::new();
        match self.message_output_index {
            None => {},
            Some(m) => {
                message.push(
                    ResponseEvent::MessageDone { output_index: m, item_id: self.message_id.clone(), text: self.text.clone() },
                );
            },
        }
        let ghost rv = events_view(reasoning@);
        let ghost mv = events_view(message@);
        let message_first = match (self.reasoning.output_index, self.message_output_index) {
            (Some(r), Some(m)) => m < r,
            _ => false,
        };
        if message_first {
            message.append(&mut reasoning);
            assert(events_view(message@) =~= mv + rv);
            message
        } else {
            reasoning.append(&mut message);
            assert(events_view(reasoning@) =~= rv + mv);
            reasoning
        }
    }

    /// Ends the reply. Calls without an id get a fresh `call_` id; each
    /// completed call takes the next output index.
    pub fn finish(&mut self, tools: &ToolRegistry) -> (res: Result<Vec<ResponseEvent>, ProxyError>)
        requires
            old(self).wf(),
            tools.wf(),
            old(self)@.calls.len() + 2 <= usize::MAX,
        ensures
            exists|fresh: Seq<Seq<char>>|
                fresh_ids("call"@, fresh) && ({
                    let (r, s) = #[trigger] spec_finish(old(self)@, tools@, fresh);
                    final(self)@ == s && match r {
                        Ok(evs) => res matches Ok(v) && events_view(v@) == evs,
                        Err(e) => res matches Err(err) && err@ == e,
                    }
                }),
    {
        let ghost s0 = self@;
        proof {
            assert(fresh_ids("call"@, Seq::<Seq<char>>::empty()));
        }
        let fr = match &self.finish_reason {
            None => {
                assert(spec_finish(s0, tools@, Seq::empty()).1 == s0);
                return Err(
                    ProxyError::InvalidUpstream(
                        String::from_str("Chat response ended without finish_reason"),
                    ),
                );
            },
            Some(f) => f.as_str(),
        };
        proof {
            reveal_strlit("length");
            reveal_strlit("content_filter");
            reveal_strlit("stop");
            reveal_strlit("tool_calls");
        }
        if str_is(fr, "length") {
            let mut v: Vec<ResponseEvent> = Vec::new();
            v.push(ResponseEvent::Incomplete { response_id: self.response_id.clone() });
            assert(events_view(v@) =~= seq![ResponseEventV::Incomplete { response_id: s0.response_id }]);
            assert(spec_finish(s0, tools@, Seq::empty()).1 == s0);
            return Ok(v);
        }
        if str_is(fr, "content_filter") {
            let mut v: Vec<ResponseEvent> = Vec::new();
            v.push(
                self.failed_event(
                    String::from_str("upstream Chat completion stopped because of content filtering"),
                ),
            );
            assert(events_view(v@) =~= seq![
                ResponseEventV::Failed { response_id: s0.response_id, message: content_filter_message() },
            ]);
            assert(spec_finish(s0, tools@, Seq::empty()).1 == s0);
            return Ok(v);
        }
        let is_stop = str_is(fr, "stop");
        let is_tool_calls = str_is(fr, "tool_calls");
        if is_stop && self.calls.len() > 0 {
            assert(spec_finish(s0, tools@, Seq::empty()).1 == s0);
            return Err(
                ProxyError::InvalidUpstream(
                    String::from_str("finish_reason=stop accompanied by tool calls"),
                ),
            );
        }
        if is_tool_calls && self.calls.len() == 0 {
            assert(spec_finish(s0, tools@, Seq::empty()).1 == s0);
            return Err(
                ProxyError::InvalidUpstream(
                    String::from_str("finish_reason=tool_calls without a tool call"),
                ),
            );
        }
        if !is_stop && !is_tool_calls {
            assert(spec_finish(s0, tools@, Seq::empty()).1 == s0);
            return Err(
                ProxyError::InvalidUpstream(
                    concat2("unsupported Chat finish_reason ", debug_str(fr).as_str()),
                ),
            );
        }
        let mut events = self.item_events();
        let ghost items = events_view(events@);
        assert(forall|w: Seq<Seq<char>>|
            #[trigger] spec_finish(s0, tools@, w) == spec_finish_completion(s0, tools@, w));
        let mut call_events: Vec<ResponseEvent> = Vec::new();
        let ghost reg = tools@;
        let ghost calls0 = s0.calls;
        let ghost mut fresh: Seq<Seq<char>> = Seq::empty();
        let n = self.calls.len();
        let mut i: usize = 0;
        proof {
            lemma_finish_calls_shape(calls0, reg, s0.next_output_index, fresh, 0);
            assert(events_view(call_events@) =~= Seq::<ResponseEventV>::empty());
        }
        while i < n
            invariant
                n == calls0.len(),
                calls0 == s0.calls,
                s0 == old(self)@,
                n + 2 <= usize::MAX,
                i <= n,
                tools.wf(),
                reg == tools@,
                fresh.len() == i,
                fresh_ids("call"@, fresh),
                s0.next_output_index <= 2,
                spec_finish_calls(calls0, reg, s0.next_output_index, fresh, i as nat) == (
                Ok::<Seq<ResponseEventV>, ProxyErrorV>(events_view(call_events@)),
                calls_view(self.calls@),
                self.next_output_index as nat,
                ),
                self@ == (TranslatorV {
                    calls: self@.calls,
                    next_output_index: self@.next_output_index,
                    ..s0
                }),
                events_view(events@) == items,
                items == spec_item_events(s0),
                forall|w: Seq<Seq<char>>|
                    #[trigger] spec_finish(s0, reg, w) == spec_finish_completion(s0, reg, w),
            decreases n - i,
        {
            proof {
                lemma_finish_calls_shape(calls0, reg, s0.next_output_index, fresh, i as nat);
                assert(calls_view(self.calls@)[i as int] == calls0[i as int]) by {
                    assert(calls_view(self.calls@).subrange(i as int, n as int)[0] == calls0.subrange(
                        i as int,
                        n as int,
                    )[0]);
                }
            }
            let ghost cs = calls_view(self.calls@);
            if self.calls[i].name.as_str().is_empty() {
                proof {
                    let f = sample_id("call"@);
                    lemma_sample_id("call"@);
                    lemma_finish_calls_fresh_prefix(calls0, reg, s0.next_output_index, fresh, seq![f], i as nat);
                    assert(fresh + seq![f] =~= fresh.push(f));
                    let fr2 = fresh.push(f);
                    assert(fresh_ids("call"@, fr2));
                    assert(cs[i as int] == calls0[i as int]);
                    assert(cs.update(i as int, calls0[i as int]) =~= cs);
                    assert(spec_finish_calls(calls0, reg, s0.next_output_index, fr2, (i + 1) as nat).1
                        == cs);
                    lemma_finish_calls_error_sticks(calls0, reg, s0.next_output_index, fr2, (i + 1) as nat, n as nat);
                    let fin = spec_finish_calls(calls0, reg, s0.next_output_index, fr2, n as nat);
                    assert(fin.1 == cs);
                    assert(fin.2 == self.next_output_index as nat);
                    assert(s0.calls.len() == n);
                    assert(spec_finish_completion(s0, reg, fr2).1 == (TranslatorV {
                        calls: cs,
                        next_output_index: self.next_output_index as nat,
                        ..s0
                    }));
                    assert(spec_finish(s0, reg, fr2).1 == self@);
                    assert(spec_finish(s0, reg, fr2).0 == Err::<Seq<ResponseEventV>, ProxyErrorV>(
                        ProxyErrorV::InvalidUpstream("tool call completed without a function name"@),
                    ));
                }
                return Err(
                    ProxyError::InvalidUpstream(
                        String::from_str("tool call completed without a function name"),
                    ),
                );
            }
            let ghost f: Seq<char>;
            if self.calls[i].call_id.as_str().is_empty() {
                let mut c = self.calls.remove(i);
                c.call_id = prefixed_id("call");
                proof {
                    f = c@.call_id;
                }
                self.calls.insert(i, c);
            } else {
                proof {
                    f = sample_id("call"@);
                    lemma_sample_id("call"@);
                }
            }
            let ghost c2 = calls_view(self.calls@)[i as int];
            proof {
                assert(calls_view(self.calls@) =~= cs.update(i as int, c2));
                lemma_finish_calls_fresh_prefix(calls0, reg, s0.next_output_index, fresh, seq![f], i as nat);
                assert(fresh + seq![f] =~= fresh.push(f));
                fresh = fresh.push(f);
                assert(fresh_ids("call"@, fresh));
                assert(fresh[i as int] == f);
            }
            let item = tools.response_item(
                self.calls[i].item_id.clone(),
                self.calls[i].call_id.clone(),
                self.calls[i].name.as_str(),
                self.calls[i].arguments.clone(),
            );
            let item = match item {
                Ok(item) => item,
                Err(e) => {
                    proof {
                        lemma_finish_calls_error_sticks(calls0, reg, s0.next_output_index, fresh, (i + 1) as nat, n as nat);
                        assert(spec_finish(s0, reg, fresh).1 == self@);
                        assert(spec_finish(s0, reg, fresh).0 == Err::<Seq<ResponseEventV>, ProxyErrorV>(
                            e@,
                        ));
                    }
                    return Err(e);
                },
            };
            let idx = self.next_output_index;
            self.next_output_index = idx + 1;
            call_events.push(ResponseEvent::ToolCallDone { output_index: idx, item });
            proof {
                assert(events_view(call_events@) =~= spec_finish_calls(
                    calls0,
                    reg,
                    s0.next_output_index,
                    fresh,
                    i as nat,
                ).0->Ok_0.push(ResponseEventV::ToolCallDone { output_index: idx as nat, item: item@ }));
            }
            i += 1;
        }
        let ghost ce = events_view(call_events@);
        events.append(&mut call_events);
        let usage = to_response_usage(self.usage);
        events.push(ResponseEvent::Completed { response_id: self.response_id.clone(), usage });
        proof {
            assert(events_view(events@) =~= items + ce + seq![
                ResponseEventV::Completed { response_id: s0.response_id, usage: opt_response_usage(s0.usage) },
            ]);
            assert(spec_finish_completion(s0, reg, fresh) == (
                Ok::<Seq<ResponseEventV>, ProxyErrorV>(events_view(events@)),
                self@,
            ));
            assert(spec_finish(s0, reg, fresh).1 == self@);
        }
        Ok(events)
    }
}


/// Whether SSE event data is the `[DONE]` marker that ends a Chat stream
/// (surrounding whitespace aside).
pub fn is_done_marker(data: &str) -> (res: bool)
    ensures
        res == (trim(data@) == "[DONE]"@),
{
    let trimmed = trim_chars(&chars_of(data));
    chars_eq(&trimmed, &chars_of("[DONE]"))
}

/// The data of one Chat SSE event that is not `[DONE]`, as decoded from JSON.
#[derive(Clone, Debug, PartialEq, Eq)]
pub enum ChunkPayload {
    /// Not a JSON Chat chunk; the text says why.
    Invalid(String),
    /// An `error` object, with its `message` when that is a string.
    UpstreamError(Option<String>),
    Chunk(ChatChunk),
}

pub open spec fn spec_chunk_of(p: ChunkPayload) -> Result<ChatChunk, ProxyErrorV> {
    match p {
        ChunkPayload::Invalid(e) => Err(ProxyErrorV::InvalidUpstream("invalid Chat chunk: "@ + e@)),
        ChunkPayload::UpstreamError(m) => Err(
            ProxyErrorV::InvalidUpstream(
                "upstream SSE error: "@ + match m {
                    Some(s) => s@,
                    None => "upstream emitted an SSE error without a message"@,
                },
            ),
        ),
        ChunkPayload::Chunk(c) => Ok(c),
    }
}

/// The chunk an SSE event carries, or why it carries none.
pub fn chunk_of(p: ChunkPayload) -> (res: Result<ChatChunk, ProxyError>)
    ensures
        match spec_chunk_of(p) {
            Ok(c) => res == Ok::<ChatChunk, ProxyError>(c),
            Err(e) => res matches Err(err) && err@ == e,
        },
{
    match p {
        ChunkPayload::Invalid(e) => Err(ProxyError::InvalidUpstream(concat2("invalid Chat chunk: ", e.as_str()))),
        ChunkPayload::UpstreamError(m) => {
            let message = match m {
                Some(s) => s,
                None => String::from_str("upstream emitted an SSE error without a message"),
            };
            Err(ProxyError::InvalidUpstream(concat2("upstream SSE error: ", message.as_str())))
        },
        ChunkPayload::Chunk(c) => Ok(c),
    }
}

/// What the upstream connection delivered next.
#[derive(Clone, Debug, PartialEq, Eq)]
pub enum UpstreamEvent {
    /// The `[DONE]` marker.
    Done,
    /// Any other event data.
    Payload(ChunkPayload),
    /// The SSE framing could not be decoded; the text says why.
    DecodeError(String),
    /// The connection ended.
    Closed,
    /// No event arrived within the idle timeout.
    IdleTimeout,
}

/// The events to send, and whether the response stream ends with them.
#[derive(Clone, Debug, PartialEq, Eq)]
pub enum StreamStep {
    Continue(Vec<ResponseEvent>),
    Finished(Vec<ResponseEvent>),
}

/// The value of a [`StreamStep`].
pub enum StreamStepV {
    Continue(Seq<ResponseEventV>),
    Finished(Seq<ResponseEventV>),
}

impl View for StreamStep {
    type V = StreamStepV;

    open spec fn view(&self) -> StreamStepV {
        match self {
            StreamStep::Continue(v) => StreamStepV::Continue(events_view(v@)),
            StreamStep::Finished(v) => StreamStepV::Finished(events_view(v@)),
        }
    }
}

/// The `response.failed` event for an error.
pub open spec fn failure(s: TranslatorV, e: ProxyErrorV) -> ResponseEventV {
    ResponseEventV::Failed { response_id: s.response_id, message: error_message(e) }
}

/// The end of the response stream after a final result.
pub open spec fn terminal(s: TranslatorV, r: Result<Seq<ResponseEventV>, ProxyErrorV>) -> StreamStepV {
    match r {
        Ok(evs) => StreamStepV::Finished(evs),
        Err(e) => StreamStepV::Finished(seq![failure(s, e)]),
    }
}

/// The step taken on one upstream event: `[DONE]`, or the end of the
/// connection after a finish reason, finishes the reply; a chunk is
/// translated; any error ends the stream with `response.failed`.
pub open spec fn spec_on_event(
    s: TranslatorV,
    reg: RegistryV,
    ev: UpstreamEvent,
    fresh_items: Seq<Seq<char>>,
    fresh_calls: Seq<Seq<char>>,
) -> StreamStepV {
    match ev {
        UpstreamEvent::DecodeError(e) => terminal(
            s,
            Err(ProxyErrorV::InvalidUpstream("failed to decode Chat SSE: "@ + e@)),
        ),
        UpstreamEvent::IdleTimeout => terminal(
            s,
            Err(ProxyErrorV::InvalidUpstream("idle timeout waiting for Chat SSE"@)),
        ),
        UpstreamEvent::Closed => if s.finish_reason is Some {
            terminal(s, spec_finish(s, reg, fresh_calls).0)
        } else {
            terminal(
                s,
                Err(ProxyErrorV::InvalidUpstream("stream closed before a finish_reason or [DONE]"@)),
            )
        },
        UpstreamEvent::Done => terminal(s, spec_finish(s, reg, fresh_calls).0),
        UpstreamEvent::Payload(p) => match spec_chunk_of(p) {
            Err(e) => terminal(s, Err(e)),
            Ok(c) => match spec_push_chunk(s, c, fresh_items) {
                Ok((_, evs)) => StreamStepV::Continue(evs),
                Err(e) => terminal(s, Err(e)),
            },
        },
    }
}

/// The state after a step that continues the stream.
pub open spec fn spec_on_event_state(
    s: TranslatorV,
    ev: UpstreamEvent,
    fresh_items: Seq<Seq<char>>,
) -> TranslatorV {
    match ev {
        UpstreamEvent::Payload(p) => match spec_chunk_of(p) {
            Ok(c) => match spec_push_chunk(s, c, fresh_items) {
                Ok((s2, _)) => s2,
                Err(_) => s,
            },
            Err(_) => s,
        },
        _ => s,
    }
}

/// All the events of a buffered reply: its output, then its end; any error
/// ends it with `response.failed`.
pub open spec fn spec_buffered_events(
    s: TranslatorV,
    reg: RegistryV,
    comp: BufferedChatCompletion,
    fresh_items: Seq<Seq<char>>,
    fresh_calls: Seq<Seq<char>>,
) -> Seq<ResponseEventV> {
    match spec_push_buffered(s, comp, fresh_items) {
        Err(e) => seq![failure(s, e)],
        Ok((s2, evs)) => match spec_finish(s2, reg, fresh_calls).0 {
            Ok(end) => evs + end,
            Err(e) => evs + seq![failure(s2, e)],
        },
    }
}


/// The number of tool calls a buffered reply carries in its first choice.
pub open spec fn buffered_call_count(comp: BufferedChatCompletion) -> nat {
    if comp.choices.len() > 0 {
        comp.choices[0].message.tool_calls@.len()
    } else {
        0
    }
}

proof fn lemma_tool_deltas_count(
    calls: Seq<PendingCallV>,
    deltas: Seq<ChatToolCallDelta>,
    fresh: Seq<Seq<char>>,
)
    ensures
        spec_tool_deltas(calls, deltas, fresh) matches Ok(c) ==> c.len() <= calls.len() + deltas.len(),
    decreases deltas.len(),
{
    if deltas.len() > 0 {
        lemma_tool_deltas_count(calls, deltas.drop_last(), fresh);
        if let Ok(c) = spec_tool_deltas(calls, deltas.drop_last(), fresh) {
            lemma_call_slot(c, deltas.last().index as nat, 0);
        }
    }
}

proof fn lemma_buffered_call_count(s: TranslatorV, comp: BufferedChatCompletion, fresh: Seq<Seq<char>>)
    ensures
        spec_push_buffered(s, comp, fresh) matches Ok((s2, _)) ==> s2.calls.len() <= s.calls.len()
            + buffered_call_count(comp),
{
    if let Ok((s2, _)) = spec_push_buffered(s, comp, fresh) {
        let ch = comp.choices[0];
        let s0 = TranslatorV { usage: comp.usage, ..s };
        let r1 = if ch.message.reasoning_content is Some || ch.message.content is Some {
            spec_apply_delta(
                s0,
                opt_string_view(ch.message.reasoning_content),
                opt_string_view(ch.message.content),
                Seq::empty(),
                None,
                Seq::empty(),
            )
        } else {
            Ok((s0, Seq::<ResponseEventV>::empty()))
        };
        let (s1, _) = r1->Ok_0;
        if ch.message.reasoning_content is Some || ch.message.content is Some {
            if let Ok((sa, _)) = spec_reasoning_stage(s0, opt_string_view(ch.message.reasoning_content)) {
                let (sb, _) = spec_content_stage(sa, opt_string_view(ch.message.content));
                lemma_no_deltas(sb.calls, Seq::empty());
            }
        }
        lemma_tool_deltas_count(s1.calls, buffered_deltas(ch.message.tool_calls@), fresh);
    }
}

impl StreamTranslator {
    fn fail(&self, e: ProxyError) -> (res: Vec<ResponseEvent>)
        ensures
            events_view(res@) == seq![failure(self@, e@)],
    {
        let mut v: Vec<ResponseEvent> = Vec::new();
        v.push(self.failed_event(e.message()));
        assert(events_view(v@) =~= seq![failure(self@, e@)]);
        v
    }

    fn end(&mut self, tools: &ToolRegistry) -> (res: Vec<ResponseEvent>)
        requires
            old(self).wf(),
            tools.wf(),
            old(self)@.calls.len() + 2 <= usize::MAX,
        ensures
            exists|fresh: Seq<Seq<char>>|
                fresh_ids("call"@, fresh) && StreamStepV::Finished(events_view(res@)) == terminal(
                    old(self)@,
                    #[trigger] spec_finish(old(self)@, tools@, fresh).0,
                ),
    {
        let ghost s0 = self@;
        let r = self.finish(tools);
        let ghost fresh = choose|fresh: Seq<Seq<char>>|
            fresh_ids("call"@, fresh) && ({
                let (r2, s) = #[trigger] spec_finish(s0, tools@, fresh);
                self@ == s && match r2 {
                    Ok(evs) => r matches Ok(v) && events_view(v@) == evs,
                    Err(e) => r matches Err(err) && err@ == e,
                }
            });
        match r {
            Ok(v) => v,
            Err(e) => {
                assert(self@.response_id == s0.response_id);
                let mut v: Vec<ResponseEvent> = Vec::new();
                v.push(self.failed_event(e.message()));
                assert(events_view(v@) =~= seq![failure(s0, e@)]);
                v
            },
        }
    }

    /// Decides what one upstream event produces. New tool calls get fresh
    /// `fc_` item ids, and calls completed without an id fresh `call_` ids.
    pub fn on_upstream_event(&mut self, tools: &ToolRegistry, event: UpstreamEvent) -> (res: StreamStep)
        requires
            old(self).wf(),
            tools.wf(),
            old(self)@.calls.len() + 2 <= usize::MAX,
        ensures
            exists|fresh_items: Seq<Seq<char>>, fresh_calls: Seq<Seq<char>>|
                fresh_ids("fc"@, fresh_items) && fresh_ids("call"@, fresh_calls) && res@
                    == #[trigger] spec_on_event(old(self)@, tools@, event, fresh_items, fresh_calls),
            res is Continue ==> final(self).wf() && exists|fresh_items: Seq<Seq<char>>|
                fresh_ids("fc"@, fresh_items) && final(self)@ == #[trigger] spec_on_event_state(
                    old(self)@,
                    event,
                    fresh_items,
                ),
    {
        let ghost s0 = self@;
        let ghost ev = event;
        proof {
            assert(fresh_ids("fc"@, Seq::<Seq<char>>::empty()));
            assert(fresh_ids("call"@, Seq::<Seq<char>>::empty()));
        }
        match event {
            UpstreamEvent::DecodeError(e) => {
                let v = self.fail(ProxyError::InvalidUpstream(concat2("failed to decode Chat SSE: ", e.as_str())));
                assert(spec_on_event(s0, tools@, ev, Seq::empty(), Seq::empty()) == StreamStepV::Finished(events_view(v@)));
                StreamStep::Finished(v)
            },
            UpstreamEvent::IdleTimeout => {
                let v = self.fail(ProxyError::InvalidUpstream(String::from_str("idle timeout waiting for Chat SSE")));
                assert(spec_on_event(s0, tools@, ev, Seq::empty(), Seq::empty()) == StreamStepV::Finished(events_view(v@)));
                StreamStep::Finished(v)
            },
            UpstreamEvent::Closed => {
                if self.has_finish_reason() {
                    let v = self.end(tools);
                    proof {
                        let fresh = choose|fresh: Seq<Seq<char>>|
                            fresh_ids("call"@, fresh) && StreamStepV::Finished(events_view(v@)) == terminal(
                                s0,
                                #[trigger] spec_finish(s0, tools@, fresh).0,
                            );
                        assert(spec_on_event(s0, tools@, ev, Seq::empty(), fresh) == StreamStepV::Finished(events_view(v@)));
                    }
                    StreamStep::Finished(v)
                } else {
                    let v = self.fail(
                        ProxyError::InvalidUpstream(
                            String::from_str("stream closed before a finish_reason or [DONE]"),
                        ),
                    );
                    assert(spec_on_event(s0, tools@, ev, Seq::empty(), Seq::empty()) == StreamStepV::Finished(events_view(v@)));
                    StreamStep::Finished(v)
                }
            },
            UpstreamEvent::Done => {
                let v = self.end(tools);
                proof {
                    let fresh = choose|fresh: Seq<Seq<char>>|
                        fresh_ids("call"@, fresh) && StreamStepV::Finished(events_view(v@)) == terminal(
                            s0,
                            #[trigger] spec_finish(s0, tools@, fresh).0,
                        );
                    assert(spec_on_event(s0, tools@, ev, Seq::empty(), fresh) == StreamStepV::Finished(events_view(v@)));
                }
                StreamStep::Finished(v)
            },
            UpstreamEvent::Payload(p) => {
                let ghost pp = p;
                match chunk_of(p) {
                    Err(e) => {
                        let v = self.fail(e);
                        assert(spec_on_event(s0, tools@, ev, Seq::empty(), Seq::empty()) == StreamStepV::Finished(events_view(v@)));
                        StreamStep::Finished(v)
                    },
                    Ok(c) => {
                        let ghost cc = c;
                        let r = self.push_chunk(c);
                        let ghost fresh = choose|fresh: Seq<Seq<char>>|
                            fresh_ids("fc"@, fresh) && match #[trigger] spec_push_chunk(s0, cc, fresh) {
                                Ok((s, evs)) => r matches Ok(v) && self@ == s && events_view(v@) == evs
                                    && self.wf(),
                                Err(e) => r matches Err(err) && err@ == e && self@.response_id
                                    == s0.response_id,
                            };
                        match r {
                            Ok(v) => {
                                assert(spec_on_event(s0, tools@, ev, fresh, Seq::empty()) == StreamStepV::Continue(events_view(v@)));
                                assert(spec_on_event_state(s0, ev, fresh) == self@);
                                StreamStep::Continue(v)
                            },
                            Err(e) => {
                                let v = self.fail(e);
                                assert(failure(self@, e@) == failure(s0, e@));
                                assert(spec_on_event(s0, tools@, ev, fresh, Seq::empty()) == StreamStepV::Finished(events_view(v@)));
                                StreamStep::Finished(v)
                            },
                        }
                    },
                }
            },
        }
    }

    /// All the events of a buffered reply, after `response.created`.
    pub fn translate_buffered(&mut self, tools: &ToolRegistry, completion: BufferedChatCompletion) -> (res:
        Vec<ResponseEvent>)
        requires
            old(self).wf(),
            tools.wf(),
            old(self)@.calls.len() + buffered_call_count(completion) + 2 <= usize::MAX,
        ensures
            exists|fresh_items: Seq<Seq<char>>, fresh_calls: Seq<Seq<char>>|
                fresh_ids("fc"@, fresh_items) && fresh_ids("call"@, fresh_calls) && events_view(res@)
                    == #[trigger] spec_buffered_events(
                    old(self)@,
                    tools@,
                    completion,
                    fresh_items,
                    fresh_calls,
                ),
    {
        let ghost s0 = self@;
        let ghost comp = completion;
        proof {
            assert(fresh_ids("call"@, Seq::<Seq<char>>::empty()));
        }
        let r = self.push_buffered(completion);
        let ghost fresh = choose|fresh: Seq<Seq<char>>|
            fresh_ids("fc"@, fresh) && match #[trigger] spec_push_buffered(s0, comp, fresh) {
                Ok((s, evs)) => r matches Ok(v) && self@ == s && events_view(v@) == evs && self.wf(),
                Err(e) => r matches Err(err) && err@ == e && self@.response_id == s0.response_id,
            };
        match r {
            Err(e) => {
                let v = self.fail(e);
                assert(events_view(v@) =~= seq![failure(s0, e@)]);
                assert(spec_buffered_events(s0, tools@, comp, fresh, Seq::empty()) == events_view(v@));
                v
            },
            Ok(mut evs) => {
                let ghost s1 = self@;
                let ghost pushed = events_view(evs@);
                proof {
                    lemma_buffered_call_count(s0, comp, fresh);
                }
                let mut end = self.end(tools);
                let ghost endv = events_view(end@);
                evs.append(&mut end);
                proof {
                    let fc = choose|fc: Seq<Seq<char>>|
                        fresh_ids("call"@, fc) && StreamStepV::Finished(endv) == terminal(
                            s1,
                            #[trigger] spec_finish(s1, tools@, fc).0,
                        );
                    assert(events_view(evs@) =~= pushed + endv);
                    assert(spec_buffered_events(s0, tools@, comp, fresh, fc) == events_view(evs@));
                }
                evs
            },
        }
    }
}


/// The output index of an `output_item.done` event.
pub open spec fn done_index(e: ResponseEventV) -> Option<nat> {
    match e {
        ResponseEventV::ReasoningDone { output_index, .. } => Some(output_index),
        ResponseEventV::MessageDone { output_index, .. } => Some(output_index),
        ResponseEventV::ToolCallDone { output_index, .. } => Some(output_index),
        _ => None,
    }
}

/// Whether an event ends the response stream.
pub open spec fn is_terminal(e: ResponseEventV) -> bool {
    e is Completed || e is Failed || e is Incomplete
}

/// The items of `evs` complete in strictly increasing output-index order.
pub open spec fn done_in_order(evs: Seq<ResponseEventV>) -> bool {
    forall|i: int, j: int|
        #![trigger done_index(evs[i]), done_index(evs[j])]
        0 <= i < j < evs.len() && done_index(evs[i]) is Some && done_index(evs[j]) is Some
            ==> done_index(evs[i])->Some_0 < done_index(evs[j])->Some_0
}

proof fn lemma_finish_calls_events(
    calls: Seq<PendingCallV>,
    reg: RegistryV,
    next: nat,
    fresh: Seq<Seq<char>>,
    k: nat,
)
    ensures
        spec_finish_calls(calls, reg, next, fresh, k).0 matches Ok(evs) ==> (evs.len() == k
            && forall|j: int| 0 <= j < k ==> #[trigger] done_index(evs[j]) == Some((next + j) as nat)
            && !is_terminal(evs[j])),
    decreases k,
{
    if k > 0 {
        lemma_finish_calls_events(calls, reg, next, fresh, (k - 1) as nat);
        let (r, cs, n) = spec_finish_calls(calls, reg, next, fresh, (k - 1) as nat);
        if let Ok(evs) = r {
            if let Ok(ev) = spec_finish_call(calls[k - 1], reg, n, fresh[k - 1]).0 {
                lemma_finish_calls_next(calls, reg, next, fresh, (k - 1) as nat);
                let all = evs.push(ev);
                assert forall|j: int| 0 <= j < k implies #[trigger] done_index(all[j]) == Some(
                    (next + j) as nat,
                ) && !is_terminal(all[j]) by {
                    if j < k - 1 {
                        assert(all[j] == evs[j]);
                    }
                }
            }
        }
    }
}

proof fn lemma_finish_calls_next(
    calls: Seq<PendingCallV>,
    reg: RegistryV,
    next: nat,
    fresh: Seq<Seq<char>>,
    k: nat,
)
    ensures
        spec_finish_calls(calls, reg, next, fresh, k).0 is Ok ==> spec_finish_calls(
            calls,
            reg,
            next,
            fresh,
            k,
        ).2 == next + k,
    decreases k,
{
    if k > 0 {
        lemma_finish_calls_next(calls, reg, next, fresh, (k - 1) as nat);
    }
}

proof fn lemma_item_events(s: TranslatorV)
    requires
        translator_wf(s),
    ensures
        ({
            let items = spec_item_events(s);
            &&& forall|i: int| 0 <= i < items.len() ==> !is_terminal(#[trigger] items[i])
            &&& forall|i: int|
                0 <= i < items.len() && #[trigger] done_index(items[i]) is Some ==> done_index(
                    items[i],
                )->Some_0 < s.next_output_index
            &&& done_in_order(items)
        }),
{
    let reasoning = spec_reasoning_finish(s.reasoning);
    let message = match s.message_output_index {
        None => Seq::<ResponseEventV>::empty(),
        Some(m) => seq![ResponseEventV::MessageDone { output_index: m, item_id: s.message_id, text: s.text }],
    };
    let items = spec_item_events(s);
    if s.reasoning.output_index matches Some(r) && s.message_output_index matches Some(m) && m < r {
        assert(items == message + reasoning);
    } else {
        assert(items == reasoning + message);
    }
    assert forall|i: int, j: int|
        #![trigger done_index(items[i]), done_index(items[j])]
        0 <= i < j < items.len() && done_index(items[i]) is Some && done_index(items[j]) is Some
            implies done_index(items[i])->Some_0 < done_index(items[j])->Some_0 by {
    }
}

/// A reply that finishes normally ends with exactly one terminal event,
/// `response.completed`, and completes its output items in strictly
/// increasing output-index order: the items started while streaming, then
/// the tool calls.
pub proof fn lemma_finish_orders_items(s: TranslatorV, reg: RegistryV, fresh: Seq<Seq<char>>)
    requires
        translator_wf(s),
        s.finish_reason == Some("stop"@) || s.finish_reason == Some("tool_calls"@),
        spec_finish(s, reg, fresh).0 is Ok,
    ensures
        ({
            let evs = spec_finish(s, reg, fresh).0->Ok_0;
            &&& evs.len() > 0
            &&& evs.last() is Completed
            &&& forall|i: int| 0 <= i < evs.len() - 1 ==> !is_terminal(#[trigger] evs[i])
            &&& done_in_order(evs)
        }),
{
    reveal_strlit("stop");
    reveal_strlit("tool_calls");
    reveal_strlit("length");
    reveal_strlit("content_filter");
    let fr = s.finish_reason->Some_0;
    assert(fr.len() == 4 || fr.len() == 10);
    assert(fr != "length"@) by {
        assert("length"@.len() == 6);
    }
    assert(fr != "content_filter"@) by {
        assert("content_filter"@.len() == 14);
    }
    assert(spec_finish(s, reg, fresh) == spec_finish_completion(s, reg, fresh));
    lemma_item_events(s);
    let (r, cs, n) = spec_finish_calls(s.calls, reg, s.next_output_index, fresh, s.calls.len());
    let call_events = r->Ok_0;
    lemma_finish_calls_events(s.calls, reg, s.next_output_index, fresh, s.calls.len());
    let items = spec_item_events(s);
    let completed = seq![
        ResponseEventV::Completed { response_id: s.response_id, usage: opt_response_usage(s.usage) },
    ];
    let evs = items + call_events + completed;
    assert(spec_finish(s, reg, fresh).0->Ok_0 == evs);
    let ilen = items.len() as int;
    let clen = call_events.len() as int;
    assert(forall|i: int| 0 <= i < ilen ==> #[trigger] evs[i] == items[i]);
    assert(forall|i: int| ilen <= i < ilen + clen ==> #[trigger] evs[i] == call_events[i - ilen]);
    assert(evs[ilen + clen] == completed[0]);
    assert forall|i: int| 0 <= i < ilen implies #[trigger] done_index(evs[i]) is Some ==> done_index(
        evs[i],
    )->Some_0 < s.next_output_index && !is_terminal(evs[i]) by {
        assert(evs[i] == items[i]);
    }
    assert forall|i: int| 0 <= i < evs.len() - 1 implies !is_terminal(#[trigger] evs[i]) by {
        if i < ilen {
            assert(evs[i] == items[i]);
        } else {
            assert(evs[i] == call_events[i - ilen]);
            assert(done_index(call_events[i - ilen]) == Some((s.next_output_index + (i - ilen)) as nat));
        }
    }
    assert forall|i: int, j: int|
        #![trigger done_index(evs[i]), done_index(evs[j])]
        0 <= i < j < evs.len() && done_index(evs[i]) is Some && done_index(evs[j]) is Some
            implies done_index(evs[i])->Some_0 < done_index(evs[j])->Some_0 by {
        if j < ilen {
            assert(evs[i] == items[i]);
            assert(evs[j] == items[j]);
        } else if i < ilen {
            assert(evs[i] == items[i]);
            if j < ilen + clen {
                assert(evs[j] == call_events[j - ilen]);
                assert(done_index(call_events[j - ilen]) == Some((s.next_output_index + (j - ilen)) as nat));
            }
        } else if j < ilen + clen {
            assert(evs[i] == call_events[i - ilen]);
            assert(evs[j] == call_events[j - ilen]);
            assert(done_index(call_events[i - ilen]) == Some((s.next_output_index + (i - ilen)) as nat));
            assert(done_index(call_events[j - ilen]) == Some((s.next_output_index + (j - ilen)) as nat));
        }
    }
}

/// The events of one delta are never terminal.
proof fn lemma_apply_delta_not_terminal(
    s: TranslatorV,
    reasoning: Option<Seq<char>>,
    content: Option<Seq<char>>,
    deltas: Seq<ChatToolCallDelta>,
    finish: Option<Seq<char>>,
    fresh: Seq<Seq<char>>,
)
    ensures
        spec_apply_delta(s, reasoning, content, deltas, finish, fresh) matches Ok((_, evs)) ==> forall|i: int|
            0 <= i < evs.len() ==> !is_terminal(#[trigger] evs[i]),
{
    if let Ok((s1, ev1)) = spec_reasoning_stage(s, reasoning) {
        let (s2, ev2) = spec_content_stage(s1, content);
        assert forall|i: int| 0 <= i < ev1.len() implies !is_terminal(#[trigger] ev1[i]) by {
            if reasoning is Some && reasoning->Some_0.len() > 0 {
                let rc = reasoning->Some_0;
                let r = s.reasoning;
                let index = match r.output_index {
                    Some(k) => k,
                    None => s.next_output_index,
                };
                let added = match r.output_index {
                    Some(k) => Seq::<ResponseEventV>::empty(),
                    None => seq![
                        ResponseEventV::ReasoningAdded { output_index: s.next_output_index, item_id: r.id },
                    ],
                };
                let d = ResponseEventV::ReasoningDelta { output_index: index, item_id: r.id, delta: rc };
                assert(ev1 == added.push(d));
                if i < added.len() {
                    assert(ev1[i] == added[i]);
                }
            }
        }
        assert forall|i: int| 0 <= i < ev2.len() implies !is_terminal(#[trigger] ev2[i]) by {
            if content is Some && content->Some_0.len() > 0 {
                let ct = content->Some_0;
                let (sm, idx, evm) = spec_start_message(s1);
                let d = ResponseEventV::TextDelta { output_index: idx, item_id: s1.message_id, delta: ct };
                assert(ev2 == evm.push(d));
                if i < evm.len() {
                    assert(ev2[i] == evm[i]);
                }
            }
        }
        let all = ev1 + ev2;
        assert forall|i: int| 0 <= i < all.len() implies !is_terminal(#[trigger] all[i]) by {
            if i < ev1.len() {
                assert(all[i] == ev1[i]);
            } else {
                assert(all[i] == ev2[i - ev1.len()]);
            }
        }
    }
}

/// The events a chunk sends are never terminal.
proof fn lemma_push_chunk_not_terminal(s: TranslatorV, c: ChatChunk, fresh: Seq<Seq<char>>)
    ensures
        spec_push_chunk(s, c, fresh) matches Ok((_, evs)) ==> forall|i: int|
            0 <= i < evs.len() ==> !is_terminal(#[trigger] evs[i]),
{
    if c.choices.len() == 1 {
        let ch = c.choices[0];
        let s0 = if c.usage is Some {
            TranslatorV { usage: c.usage, ..s }
        } else {
            s
        };
        lemma_apply_delta_not_terminal(
            s0,
            opt_string_view(ch.delta.reasoning_content),
            opt_string_view(ch.delta.content),
            chunk_deltas(ch.delta.tool_calls),
            opt_string_view(ch.finish_reason),
            fresh,
        );
    }
}

/// The events a buffered reply sends before its end are never terminal.
proof fn lemma_push_buffered_not_terminal(s: TranslatorV, comp: BufferedChatCompletion, fresh: Seq<Seq<char>>)
    ensures
        spec_push_buffered(s, comp, fresh) matches Ok((_, evs)) ==> forall|i: int|
            0 <= i < evs.len() ==> !is_terminal(#[trigger] evs[i]),
{
    if comp.choices.len() == 1 {
        let ch = comp.choices[0];
        let s0 = TranslatorV { usage: comp.usage, ..s };
        lemma_apply_delta_not_terminal(
            s0,
            opt_string_view(ch.message.reasoning_content),
            opt_string_view(ch.message.content),
            Seq::empty(),
            None,
            Seq::empty(),
        );
    }
}

/// Finishing a reply ends the stream with exactly one terminal event, last.
proof fn lemma_finish_ends_once(s: TranslatorV, reg: RegistryV, fresh: Seq<Seq<char>>)
    ensures
        spec_finish(s, reg, fresh).0 matches Ok(evs) ==> evs.len() > 0 && is_terminal(evs.last())
            && forall|i: int| 0 <= i < evs.len() - 1 ==> !is_terminal(#[trigger] evs[i]),
{
    if spec_finish(s, reg, fresh) == spec_finish_completion(s, reg, fresh) {
        let (r, cs, n) = spec_finish_calls(s.calls, reg, s.next_output_index, fresh, s.calls.len());
        if let Ok(call_events) = r {
            lemma_finish_calls_events(s.calls, reg, s.next_output_index, fresh, s.calls.len());
            let items = spec_item_events(s);
            let reasoning = spec_reasoning_finish(s.reasoning);
            let message = match s.message_output_index {
                None => Seq::<ResponseEventV>::empty(),
                Some(m) => seq![ResponseEventV::MessageDone { output_index: m, item_id: s.message_id, text: s.text }],
            };
            assert forall|i: int| 0 <= i < items.len() implies !is_terminal(#[trigger] items[i]) by {
                if s.reasoning.output_index matches Some(r) && s.message_output_index matches Some(m) && m < r {
                    assert(items == message + reasoning);
                    if i < message.len() {
                        assert(items[i] == message[i]);
                    } else {
                        assert(items[i] == reasoning[i - message.len()]);
                    }
                } else {
                    assert(items == reasoning + message);
                    if i < reasoning.len() {
                        assert(items[i] == reasoning[i]);
                    } else {
                        assert(items[i] == message[i - reasoning.len()]);
                    }
                }
            }
            let completed = seq![
                ResponseEventV::Completed { response_id: s.response_id, usage: opt_response_usage(s.usage) },
            ];
            let evs = items + call_events + completed;
            assert(spec_finish(s, reg, fresh).0->Ok_0 == evs);
            assert forall|i: int| 0 <= i < evs.len() - 1 implies !is_terminal(#[trigger] evs[i]) by {
                if i < items.len() {
                    assert(evs[i] == items[i]);
                } else {
                    assert(evs[i] == call_events[i - items.len()]);
                    assert(done_index(call_events[i - items.len()]) == Some(
                        (s.next_output_index + (i - items.len())) as nat,
                    ));
                }
            }
            assert(evs.last() == completed[0]);
        }
    }
}

/// Every upstream event either continues the response stream without a
/// terminal event, or finishes it with exactly one, as its last event:
/// `response.completed`, `response.incomplete` or `response.failed`.
pub proof fn lemma_stream_ends_once(
    s: TranslatorV,
    reg: RegistryV,
    ev: UpstreamEvent,
    fresh_items: Seq<Seq<char>>,
    fresh_calls: Seq<Seq<char>>,
)
    ensures
        match spec_on_event(s, reg, ev, fresh_items, fresh_calls) {
            StreamStepV::Continue(evs) => forall|i: int| 0 <= i < evs.len() ==> !is_terminal(#[trigger] evs[i]),
            StreamStepV::Finished(evs) => evs.len() > 0 && is_terminal(evs.last()) && forall|i: int|
                0 <= i < evs.len() - 1 ==> !is_terminal(#[trigger] evs[i]),
        },
{
    lemma_finish_ends_once(s, reg, fresh_calls);
    if let UpstreamEvent::Payload(p) = ev {
        if let Ok(c) = spec_chunk_of(p) {
            lemma_push_chunk_not_terminal(s, c, fresh_items);
        }
    }
}

/// A buffered reply is sent as one stream that ends with exactly one
/// terminal event, as its last event.
pub proof fn lemma_buffered_ends_once(
    s: TranslatorV,
    reg: RegistryV,
    comp: BufferedChatCompletion,
    fresh_items: Seq<Seq<char>>,
    fresh_calls: Seq<Seq<char>>,
)
    ensures
        ({
            let evs = spec_buffered_events(s, reg, comp, fresh_items, fresh_calls);
            &&& evs.len() > 0
            &&& is_terminal(evs.last())
            &&& forall|i: int| 0 <= i < evs.len() - 1 ==> !is_terminal(#[trigger] evs[i])
        }),
{
    lemma_push_buffered_not_terminal(s, comp, fresh_items);
    if let Ok((s2, pushed)) = spec_push_buffered(s, comp, fresh_items) {
        lemma_finish_ends_once(s2, reg, fresh_calls);
        let end = match spec_finish(s2, reg, fresh_calls).0 {
            Ok(end) => end,
            Err(e) => seq![failure(s2, e)],
        };
        let evs = pushed + end;
        assert(spec_buffered_events(s, reg, comp, fresh_items, fresh_calls) == evs);
        assert forall|i: int| 0 <= i < evs.len() - 1 implies !is_terminal(#[trigger] evs[i]) by {
            if i < pushed.len() {
                assert(evs[i] == pushed[i]);
            } else {
                assert(evs[i] == end[i - pushed.len()]);
            }
        }
        assert(evs.last() == end.last());
    }
}

/// The assistant text streamed by a sequence of events.
pub open spec fn streamed_text(evs: Seq<ResponseEventV>) -> Seq<char>
    decreases evs.len(),
{
    if evs.len() == 0 {
        Seq::empty()
    } else {
        streamed_text(evs.drop_last()) + match evs.last() {
            ResponseEventV::TextDelta { delta, .. } => delta,
            _ => Seq::empty(),
        }
    }
}

/// The reasoning text streamed by a sequence of events.
pub open spec fn streamed_reasoning(evs: Seq<ResponseEventV>) -> Seq<char>
    decreases evs.len(),
{
    if evs.len() == 0 {
        Seq::empty()
    } else {
        streamed_reasoning(evs.drop_last()) + match evs.last() {
            ResponseEventV::ReasoningDelta { delta, .. } => delta,
            _ => Seq::empty(),
        }
    }
}

proof fn lemma_streamed_concat(a: Seq<ResponseEventV>, b: Seq<ResponseEventV>)
    ensures
        streamed_text(a + b) == streamed_text(a) + streamed_text(b),
        streamed_reasoning(a + b) == streamed_reasoning(a) + streamed_reasoning(b),
    decreases b.len(),
{
    if b.len() == 0 {
        assert(a + b =~= a);
    } else {
        lemma_streamed_concat(a, b.drop_last());
        assert((a + b).drop_last() =~= a + b.drop_last());
        assert((a + b).last() == b.last());
    }
}

/// What a chunk streams is what the translator keeps: the message text after
/// the chunk is the text before it followed by the text deltas it emitted,
/// and likewise for the reasoning text. So the completed message and
/// reasoning items carry exactly the concatenation of their deltas.
pub proof fn lemma_chunk_text_accumulates(s: TranslatorV, c: ChatChunk, fresh: Seq<Seq<char>>)
    requires
        spec_push_chunk(s, c, fresh) is Ok,
    ensures
        ({
            let (s2, evs) = spec_push_chunk(s, c, fresh)->Ok_0;
            &&& s2.text == s.text + streamed_text(evs)
            &&& s2.reasoning.text == s.reasoning.text + streamed_reasoning(evs)
        }),
{
    if c.choices.len() == 0 {
        assert(s.text + streamed_text(Seq::<ResponseEventV>::empty()) =~= s.text);
        assert(s.reasoning.text + streamed_reasoning(Seq::<ResponseEventV>::empty()) =~= s.reasoning.text);
    } else {
        let ch = c.choices[0];
        let s0 = if c.usage is Some {
            TranslatorV { usage: c.usage, ..s }
        } else {
            s
        };
        let reasoning = opt_string_view(ch.delta.reasoning_content);
        let content = opt_string_view(ch.delta.content);
        let (s1, ev1) = spec_reasoning_stage(s0, reasoning)->Ok_0;
        let (s2, ev2) = spec_content_stage(s1, content);
        lemma_streamed_concat(ev1, ev2);
        if reasoning is Some && reasoning->Some_0.len() > 0 {
            let rc = reasoning->Some_0;
            let added = match s0.reasoning.output_index {
                Some(i) => Seq::<ResponseEventV>::empty(),
                None => seq![ResponseEventV::ReasoningAdded { output_index: s0.next_output_index, item_id: s0.reasoning.id }],
            };
            let d = ResponseEventV::ReasoningDelta {
                output_index: s1.reasoning.output_index->Some_0,
                item_id: s0.reasoning.id,
                delta: rc,
            };
            assert(ev1 == added.push(d));
            assert(added.push(d).drop_last() =~= added);
            if s0.reasoning.output_index is None {
                let a = ResponseEventV::ReasoningAdded { output_index: s0.next_output_index, item_id: s0.reasoning.id };
                assert(added == Seq::<ResponseEventV>::empty().push(a));
                assert(Seq::<ResponseEventV>::empty().push(a).drop_last() =~= Seq::<ResponseEventV>::empty());
                assert(Seq::<ResponseEventV>::empty().push(a).last() == a);
                assert(streamed_text(Seq::<ResponseEventV>::empty().push(a)) =~= streamed_text(
                    Seq::<ResponseEventV>::empty(),
                ) + Seq::<char>::empty());
                assert(streamed_reasoning(Seq::<ResponseEventV>::empty().push(a)) =~= streamed_reasoning(
                    Seq::<ResponseEventV>::empty(),
                ) + Seq::<char>::empty());
            }
            assert(streamed_text(added.push(d)) =~= streamed_text(added) + Seq::<char>::empty());
            assert(streamed_reasoning(added.push(d)) =~= streamed_reasoning(added) + rc);
            assert(streamed_text(ev1) =~= Seq::<char>::empty());
            assert(streamed_reasoning(ev1) =~= rc);
        } else {
            assert(streamed_text(ev1) =~= Seq::<char>::empty());
            assert(streamed_reasoning(ev1) =~= Seq::<char>::empty());
        }
        if content is Some && content->Some_0.len() > 0 {
            let ct = content->Some_0;
            let (sm, idx, evm) = spec_start_message(s1);
            let d = ResponseEventV::TextDelta { output_index: idx, item_id: s1.message_id, delta: ct };
            assert(ev2 == evm.push(d));
            assert(evm.push(d).drop_last() =~= evm);
            if evm.len() == 1 {
                assert(evm.drop_last() =~= Seq::<ResponseEventV>::empty());
                assert(streamed_text(evm) =~= Seq::<char>::empty());
                assert(streamed_reasoning(evm) =~= Seq::<char>::empty());
            }
            assert(streamed_text(evm.push(d)) =~= streamed_text(evm) + ct);
            assert(streamed_reasoning(evm.push(d)) =~= streamed_reasoning(evm) + Seq::<char>::empty());
            assert(streamed_text(ev2) =~= ct);
            assert(streamed_reasoning(ev2) =~= Seq::<char>::empty());
        } else {
            assert(streamed_text(ev2) =~= Seq::<char>::empty());
            assert(streamed_reasoning(ev2) =~= Seq::<char>::empty());
        }
        assert(s.text + streamed_text(ev1 + ev2) =~= s2.text);
        assert(s.reasoning.text + streamed_reasoning(ev1 + ev2) =~= s2.reasoning.text);
    }
}

} // verus!
