//! How a compiled history pairs tool calls with their answers: every call ID
//! occurs once, is answered by exactly one later tool message, and no user,
//! system or developer message comes between a call and its answer.

use crate::proxy::config::BackendCapabilities;
use crate::json::json_string_object;
use crate::proxy::history::{
    agent_text, call_index, control_message, lemma_call_index_absent, lemma_call_index_first,
    initial_history, lemma_sort_len, pending_is_empty, spec_compile_history, spec_ensure_resolved,
    spec_flush, spec_step, spec_steps, spec_tool_content,
    spec_user_content, text_parts, unresolved_ids, CallV, HistoryCallKind, HistoryV,
};
use crate::proxy::tool_registry::{spec_safe_name, ToolIdentityV, ToolKind};
use crate::text::{join_with, opt_string_view};
use crate::proxy::protocol::{ChatMessageV, ChatToolCallV, InputItem, UserContentV};
use vstd::prelude::*;

verus! {

/// The tool calls that a Chat message makes: those of an assistant message.
pub open spec fn message_calls(m: ChatMessageV) -> Seq<ChatToolCallV> {
    match m {
        ChatMessageV::Assistant { tool_calls, .. } => tool_calls,
        _ => Seq::empty(),
    }
}

/// Whether `ms[i]` makes a `j`-th tool call.
pub open spec fn call_at(ms: Seq<ChatMessageV>, i: int, j: int) -> bool {
    0 <= i < ms.len() && 0 <= j < message_calls(ms[i]).len()
}

/// The ID of the `j`-th tool call of `ms[i]`.
pub open spec fn call_id_at(ms: Seq<ChatMessageV>, i: int, j: int) -> Seq<char> {
    message_calls(ms[i])[j].id
}

/// Whether `m` is the tool message answering the call `id`.
pub open spec fn answers(m: ChatMessageV, id: Seq<char>) -> bool {
    match m {
        ChatMessageV::Tool { tool_call_id, .. } => tool_call_id == id,
        _ => false,
    }
}

/// A user, system or developer message: one that starts a new turn.
pub open spec fn is_turn_message(m: ChatMessageV) -> bool {
    m is User || m is System || m is Developer
}

/// An assistant message says something: text, reasoning or tool calls.
pub open spec fn assistant_nonempty(m: ChatMessageV) -> bool {
    match m {
        ChatMessageV::Assistant { content, reasoning_content, tool_calls } => content is Some
            || reasoning_content is Some || tool_calls.len() > 0,
        _ => true,
    }
}

/// No user, system or developer message follows `ms[i]`.
pub open spec fn turn_free_after(ms: Seq<ChatMessageV>, i: int) -> bool {
    forall|m: int| i < m < ms.len() ==> !is_turn_message(#[trigger] ms[m])
}

/// No user, system or developer message stands strictly between `ms[i]` and `ms[k]`.
pub open spec fn turn_free_between(ms: Seq<ChatMessageV>, i: int, k: int) -> bool {
    forall|m: int| i < m < k ==> !is_turn_message(#[trigger] ms[m])
}

/// The call `id` made by `ms[i]` is answered by a later tool message, with no
/// user, system or developer message in between.
pub open spec fn answered_later(ms: Seq<ChatMessageV>, i: int, id: Seq<char>) -> bool {
    exists|k: int| #![trigger ms[k]] i < k < ms.len() && answers(ms[k], id) && turn_free_between(ms, i, k)
}

/// No two tool calls of `ms` share an ID.
pub open spec fn call_ids_distinct(ms: Seq<ChatMessageV>) -> bool {
    forall|i1: int, j1: int, i2: int, j2: int|
        #![trigger call_id_at(ms, i1, j1), call_id_at(ms, i2, j2)]
        call_at(ms, i1, j1) && call_at(ms, i2, j2) && call_id_at(ms, i1, j1) == call_id_at(ms, i2, j2)
            ==> i1 == i2 && j1 == j2
}

/// No two tool messages of `ms` answer the same call.
pub open spec fn answers_unique(ms: Seq<ChatMessageV>) -> bool {
    forall|k1: int, k2: int, id: Seq<char>|
        #![trigger answers(ms[k1], id), answers(ms[k2], id)]
        0 <= k1 < ms.len() && 0 <= k2 < ms.len() && answers(ms[k1], id) && answers(ms[k2], id) ==> k1 == k2
}

/// The tool message `ms[k]` answers a call made by an earlier message.
pub open spec fn answers_earlier_call(ms: Seq<ChatMessageV>, k: int) -> bool {
    exists|i: int, j: int|
        #![trigger call_id_at(ms, i, j)]
        call_at(ms, i, j) && i < k && answers(ms[k], call_id_at(ms, i, j))
}

/// How a well-formed Chat history pairs tool calls and answers.
pub open spec fn calls_paired(ms: Seq<ChatMessageV>) -> bool {
    &&& forall|i: int| 0 <= i < ms.len() ==> assistant_nonempty(#[trigger] ms[i])
    &&& call_ids_distinct(ms)
    &&& forall|i: int, j: int| #[trigger] call_at(ms, i, j) ==> answered_later(ms, i, call_id_at(ms, i, j))
    &&& answers_unique(ms)
    &&& forall|k: int| 0 <= k < ms.len() && (#[trigger] ms[k]) is Tool ==> answers_earlier_call(ms, k)
}

spec fn known(calls: Seq<CallV>, id: Seq<char>) -> bool {
    call_index(calls, id) >= 0
}

spec fn answered(calls: Seq<CallV>, id: Seq<char>) -> bool {
    call_index(calls, id) >= 0 && calls[call_index(calls, id)].has_output
}

proof fn lemma_index_after_push(calls: Seq<CallV>, c: CallV, y: Seq<char>)
    requires
        call_index(calls, c.id) < 0,
    ensures
        call_index(calls.push(c), y) == if call_index(calls, y) >= 0 {
            call_index(calls, y)
        } else if y == c.id {
            calls.len() as int
        } else {
            -1
        },
{
    let p = calls.push(c);
    lemma_index_exact(calls, y);
    let k = call_index(calls, y);
    if k >= 0 {
        assert forall|j: int| 0 <= j < k implies (#[trigger] p[j]).id != y by {
            assert(p[j] == calls[j]);
        }
        lemma_call_index_first(p, y, k);
    } else if y == c.id {
        assert forall|j: int| 0 <= j < calls.len() implies (#[trigger] p[j]).id != y by {
            assert(p[j] == calls[j]);
        }
        lemma_call_index_first(p, y, calls.len() as int);
    } else {
        assert forall|j: int| 0 <= j < p.len() implies (#[trigger] p[j]).id != y by {
            if j < calls.len() {
                assert(p[j] == calls[j]);
            }
        }
        lemma_call_index_absent(p, y);
    }
}

proof fn lemma_index_exact(calls: Seq<CallV>, y: Seq<char>)
    ensures
        call_index(calls, y) < calls.len(),
        call_index(calls, y) >= 0 ==> calls[call_index(calls, y)].id == y,
        forall|j: int| 0 <= j < calls.len() && (call_index(calls, y) < 0 || j < call_index(calls, y))
            ==> (#[trigger] calls[j]).id != y,
    decreases calls.len(),
{
    if calls.len() > 0 && calls[0].id != y {
        lemma_index_exact(calls.drop_first(), y);
        assert forall|j: int| 0 <= j < calls.len() && (call_index(calls, y) < 0 || j < call_index(calls, y))
            implies (#[trigger] calls[j]).id != y by {
            if j > 0 {
                assert(calls[j] == calls.drop_first()[j - 1]);
            }
        }
    }
}

proof fn lemma_index_after_update(calls: Seq<CallV>, k: int, c: CallV, y: Seq<char>)
    requires
        0 <= k < calls.len(),
        c.id == calls[k].id,
    ensures
        call_index(calls.update(k, c), y) == call_index(calls, y),
{
    let u = calls.update(k, c);
    lemma_index_exact(calls, y);
    let i = call_index(calls, y);
    assert forall|j: int| 0 <= j < u.len() implies (#[trigger] u[j]).id == calls[j].id by {}
    if i >= 0 {
        assert forall|j: int| 0 <= j < i implies (#[trigger] u[j]).id != y by {
            assert(calls[j].id != y);
        }
        lemma_call_index_first(u, y, i);
    } else {
        assert forall|j: int| 0 <= j < u.len() implies (#[trigger] u[j]).id != y by {
            assert(calls[j].id != y);
        }
        lemma_call_index_absent(u, y);
    }
}

/// Some tool call of the compiled or pending assistant output has this ID.
spec fn made_call(s: HistoryV, id: Seq<char>) -> bool {
    ||| exists|i: int, j: int|
        #![trigger call_id_at(s.messages, i, j)]
        call_at(s.messages, i, j) && call_id_at(s.messages, i, j) == id
    ||| exists|j: int| 0 <= j < s.pending.tool_calls.len() && (#[trigger] s.pending.tool_calls[j]).id == id
}

/// What holds of the compilation state after every successful step.
spec fn pairing_inv(s: HistoryV) -> bool {
    let ms = s.messages;
    let p = s.pending.tool_calls;
    let calls = s.calls;
    &&& forall|i: int| 0 <= i < ms.len() ==> assistant_nonempty(#[trigger] ms[i])
    &&& call_ids_distinct(ms)
    &&& forall|j1: int, j2: int|
        0 <= j1 < p.len() && 0 <= j2 < p.len() && (#[trigger] p[j1]).id == (#[trigger] p[j2]).id ==> j1 == j2
    &&& forall|i: int, j: int, j2: int|
        call_at(ms, i, j) && 0 <= j2 < p.len() ==> #[trigger] call_id_at(ms, i, j) != (#[trigger] p[j2]).id
    &&& forall|i: int, j: int|
        #[trigger] call_at(ms, i, j) ==> {
            &&& known(calls, call_id_at(ms, i, j))
            &&& answered(calls, call_id_at(ms, i, j)) ==> answered_later(ms, i, call_id_at(ms, i, j))
            &&& !answered(calls, call_id_at(ms, i, j)) ==> turn_free_after(ms, i)
        }
    &&& forall|j: int| 0 <= j < p.len() ==> known(calls, (#[trigger] p[j]).id) && !answered(calls, p[j].id)
    &&& answers_unique(ms)
    &&& forall|k: int, id: Seq<char>|
        0 <= k < ms.len() && #[trigger] answers(ms[k], id) ==> answered(calls, id)
    &&& forall|k: int| 0 <= k < ms.len() && (#[trigger] ms[k]) is Tool ==> answers_earlier_call(ms, k)
    &&& forall|c: int| 0 <= c < calls.len() ==> made_call(s, (#[trigger] calls[c]).id)
}

proof fn lemma_flush_pairing(s: HistoryV)
    requires
        pairing_inv(s),
    ensures
        pairing_inv(spec_flush(s)),
        spec_flush(s).pending.tool_calls.len() == 0,
        spec_flush(s).calls == s.calls,
{
    if !pending_is_empty(s.pending) {
        let ms = s.messages;
        let p = s.pending.tool_calls;
        let f = spec_flush(s);
        let m2 = f.messages;
        let n = ms.len() as int;
        assert(m2.len() == n + 1);
        assert forall|i: int| 0 <= i < n implies #[trigger] m2[i] == ms[i] by {}
        assert(message_calls(m2[n]) == p);
        assert forall|i: int, j: int| #[trigger] call_at(m2, i, j) implies (i < n && call_at(ms, i, j)
            && call_id_at(m2, i, j) == call_id_at(ms, i, j)) || (i == n && 0 <= j < p.len()
            && call_id_at(m2, i, j) == p[j].id) by {
            if i < n {
                assert(m2[i] == ms[i]);
            }
        }
        assert forall|i: int| 0 <= i < m2.len() implies assistant_nonempty(#[trigger] m2[i]) by {
            if i < n {
                assert(m2[i] == ms[i]);
            }
        }
        assert forall|i1: int, j1: int, i2: int, j2: int|
            call_at(m2, i1, j1) && call_at(m2, i2, j2) && #[trigger] call_id_at(m2, i1, j1) == #[trigger] call_id_at(m2, i2, j2)
            implies i1 == i2 && j1 == j2 by {
            assert(call_at(m2, i1, j1));
            assert(call_at(m2, i2, j2));
            if i1 < n && i2 < n {
                assert(call_id_at(ms, i1, j1) == call_id_at(ms, i2, j2));
            } else if i1 < n {
                assert(call_id_at(ms, i1, j1) != p[j2].id);
            } else if i2 < n {
                assert(call_id_at(ms, i2, j2) != p[j1].id);
            } else {
                assert(p[j1].id == p[j2].id);
            }
        }
        assert forall|i: int, j: int| #[trigger] call_at(m2, i, j) implies {
            &&& known(f.calls, call_id_at(m2, i, j))
            &&& answered(f.calls, call_id_at(m2, i, j)) ==> answered_later(m2, i, call_id_at(m2, i, j))
            &&& !answered(f.calls, call_id_at(m2, i, j)) ==> turn_free_after(m2, i)
        } by {
            let y = call_id_at(m2, i, j);
            if i < n {
                assert(call_at(ms, i, j));
                if answered(s.calls, y) {
                    assert(answered_later(ms, i, y));
                    let k = choose|k: int| #![trigger ms[k]] i < k < ms.len() && answers(ms[k], y) && turn_free_between(ms, i, k);
                    assert(m2[k] == ms[k]);
                    assert forall|m: int| i < m < k implies !is_turn_message(#[trigger] m2[m]) by {
                        assert(m2[m] == ms[m]);
                    }
                    assert(answered_later(m2, i, y));
                } else {
                    assert forall|m: int| i < m < m2.len() implies !is_turn_message(#[trigger] m2[m]) by {
                        if m < n {
                            assert(m2[m] == ms[m]);
                        }
                    }
                }
            } else {
                assert(p[j].id == y);
            }
        }
        assert forall|k1: int, k2: int, id: Seq<char>|
            0 <= k1 < m2.len() && 0 <= k2 < m2.len() && #[trigger] answers(m2[k1], id) && #[trigger] answers(m2[k2], id)
            implies k1 == k2 by {
            if k1 < n && k2 < n {
                assert(m2[k1] == ms[k1] && m2[k2] == ms[k2]);
                assert(answers(ms[k1], id) && answers(ms[k2], id));
            }
        }
        assert forall|k: int, id: Seq<char>| 0 <= k < m2.len() && #[trigger] answers(m2[k], id) implies answered(f.calls, id) by {
            if k < n {
                assert(m2[k] == ms[k]);
                assert(answers(ms[k], id));
            }
        }
        assert forall|k: int| 0 <= k < m2.len() && (#[trigger] m2[k]) is Tool implies answers_earlier_call(m2, k) by {
            if k < n {
                assert(m2[k] == ms[k]);
                assert(answers_earlier_call(ms, k));
                let (i, j) = choose|i: int, j: int| #![trigger call_id_at(ms, i, j)] call_at(ms, i, j) && i < k && answers(ms[k], call_id_at(ms, i, j));
                assert(m2[i] == ms[i]);
                assert(call_id_at(m2, i, j) == call_id_at(ms, i, j));
            }
        }
        assert forall|c: int| 0 <= c < f.calls.len() implies made_call(f, (#[trigger] f.calls[c]).id) by {
            let y = s.calls[c].id;
            assert(made_call(s, y));
            if exists|i: int, j: int| #![trigger call_id_at(ms, i, j)] call_at(ms, i, j) && call_id_at(ms, i, j) == y {
                let (i, j) = choose|i: int, j: int| #![trigger call_id_at(ms, i, j)] call_at(ms, i, j) && call_id_at(ms, i, j) == y;
                assert(m2[i] == ms[i]);
                assert(call_id_at(m2, i, j) == y);
            } else {
                let j = choose|j: int| 0 <= j < p.len() && (#[trigger] p[j]).id == y;
                assert(call_at(m2, n, j));
                assert(call_id_at(m2, n, j) == y);
            }
        }
    }
}

proof fn lemma_register_pairing(s: HistoryV, c: CallV, tc: ChatToolCallV)
    requires
        pairing_inv(s),
        call_index(s.calls, c.id) < 0,
        !c.has_output,
        tc.id == c.id,
    ensures
        pairing_inv(
            HistoryV {
                messages: s.messages,
                pending: crate::proxy::history::PendingV {
                    reasoning: s.pending.reasoning,
                    text: s.pending.text,
                    tool_calls: s.pending.tool_calls.push(tc),
                },
                calls: s.calls.push(c),
            },
        ),
{
    let ms = s.messages;
    let p = s.pending.tool_calls;
    let p2 = p.push(tc);
    let c2 = s.calls.push(c);
    let s2 = HistoryV {
        messages: s.messages,
        pending: crate::proxy::history::PendingV {
            reasoning: s.pending.reasoning,
            text: s.pending.text,
            tool_calls: p2,
        },
        calls: c2,
    };
    let x = c.id;
    assert forall|y: Seq<char>| #![trigger call_index(c2, y)]
        (known(c2, y) <==> (known(s.calls, y) || y == x)) && (answered(c2, y) <==> answered(s.calls, y)) by {
        lemma_index_after_push(s.calls, c, y);
        lemma_index_exact(s.calls, y);
        if call_index(s.calls, y) >= 0 {
            assert(c2[call_index(s.calls, y)] == s.calls[call_index(s.calls, y)]);
        }
    }
    assert forall|j: int| 0 <= j < p.len() implies #[trigger] p2[j] == p[j] by {}
    assert(p2[p.len() as int] == tc);
    assert forall|j1: int, j2: int|
        0 <= j1 < p2.len() && 0 <= j2 < p2.len() && (#[trigger] p2[j1]).id == (#[trigger] p2[j2]).id implies j1 == j2 by {
        if j1 < p.len() && j2 < p.len() {
            assert(p[j1].id == p[j2].id);
        } else if j1 < p.len() {
            assert(known(s.calls, p[j1].id));
        } else if j2 < p.len() {
            assert(known(s.calls, p[j2].id));
        }
    }
    assert forall|i: int, j: int, j2: int|
        call_at(ms, i, j) && 0 <= j2 < p2.len() implies #[trigger] call_id_at(ms, i, j) != (#[trigger] p2[j2]).id by {
        if j2 < p.len() {
            assert(call_id_at(ms, i, j) != p[j2].id);
        } else {
            assert(known(s.calls, call_id_at(ms, i, j)));
        }
    }
    assert forall|i: int, j: int| #[trigger] call_at(ms, i, j) implies {
        &&& known(c2, call_id_at(ms, i, j))
        &&& answered(c2, call_id_at(ms, i, j)) ==> answered_later(ms, i, call_id_at(ms, i, j))
        &&& !answered(c2, call_id_at(ms, i, j)) ==> turn_free_after(ms, i)
    } by {
        let y = call_id_at(ms, i, j);
        assert(known(c2, y) == (known(s.calls, y) || y == x));
        assert(answered(c2, y) == answered(s.calls, y));
    }
    assert forall|j: int| 0 <= j < p2.len() implies known(c2, (#[trigger] p2[j]).id) && !answered(c2, p2[j].id) by {
        let y = p2[j].id;
        assert(known(c2, y) == (known(s.calls, y) || y == x));
        assert(answered(c2, y) == answered(s.calls, y));
        if j < p.len() {
            assert(p2[j] == p[j]);
        } else {
            lemma_index_exact(s.calls, y);
        }
    }
    assert forall|k: int, id: Seq<char>| 0 <= k < ms.len() && #[trigger] answers(ms[k], id) implies answered(c2, id) by {
        assert(answered(c2, id) == answered(s.calls, id));
    }
    assert forall|q: int| 0 <= q < c2.len() implies made_call(s2, (#[trigger] c2[q]).id) by {
        let y = c2[q].id;
        if q < s.calls.len() {
            assert(c2[q] == s.calls[q]);
            assert(made_call(s, y));
            if exists|i: int, j: int| #![trigger call_id_at(ms, i, j)] call_at(ms, i, j) && call_id_at(ms, i, j) == y {
                let (i, j) = choose|i: int, j: int| #![trigger call_id_at(ms, i, j)] call_at(ms, i, j) && call_id_at(ms, i, j) == y;
                assert(call_at(s2.messages, i, j) && call_id_at(s2.messages, i, j) == y);
            } else {
                let j = choose|j: int| 0 <= j < p.len() && (#[trigger] p[j]).id == y;
                assert(p2[j] == p[j]);
                assert(s2.pending.tool_calls[j].id == y);
            }
        } else {
            assert(s2.pending.tool_calls[p.len() as int].id == y);
        }
        assert(made_call(s2, y));
    }
}

proof fn lemma_all_answered(calls: Seq<CallV>)
    requires
        unresolved_ids(calls).len() == 0,
    ensures
        forall|k: int| 0 <= k < calls.len() ==> (#[trigger] calls[k]).has_output,
    decreases calls.len(),
{
    if calls.len() > 0 {
        if !calls.last().has_output {
            assert(unresolved_ids(calls).len() > 0);
        }
        lemma_all_answered(calls.drop_last());
        assert forall|k: int| 0 <= k < calls.len() implies (#[trigger] calls[k]).has_output by {
            if k < calls.len() - 1 {
                assert(calls[k] == calls.drop_last()[k]);
            }
        }
    }
}

proof fn lemma_answer_pairing(s: HistoryV, x: Seq<char>, content: UserContentV)
    requires
        pairing_inv(s),
        s.pending.tool_calls.len() == 0,
        call_index(s.calls, x) >= 0,
        !s.calls[call_index(s.calls, x)].has_output,
    ensures
        pairing_inv(
            HistoryV {
                messages: s.messages.push(ChatMessageV::Tool { tool_call_id: x, content: content }),
                pending: s.pending,
                calls: s.calls.update(
                    call_index(s.calls, x),
                    CallV {
                        id: s.calls[call_index(s.calls, x)].id,
                        kind: s.calls[call_index(s.calls, x)].kind,
                        has_output: true,
                    },
                ),
            },
        ),
{
    let ms = s.messages;
    let t = ChatMessageV::Tool { tool_call_id: x, content: content };
    let m2 = ms.push(t);
    let n = ms.len() as int;
    let ci = call_index(s.calls, x);
    let c2 = s.calls.update(ci, CallV { id: s.calls[ci].id, kind: s.calls[ci].kind, has_output: true });
    let s2 = HistoryV { messages: m2, pending: s.pending, calls: c2 };
    lemma_index_exact(s.calls, x);
    assert forall|y: Seq<char>| #![trigger call_index(c2, y)]
        (known(c2, y) <==> known(s.calls, y)) && (answered(c2, y) <==> (answered(s.calls, y) || y == x)) by {
        lemma_index_after_update(s.calls, ci, CallV { id: s.calls[ci].id, kind: s.calls[ci].kind, has_output: true }, y);
        lemma_index_exact(s.calls, y);
    }
    assert forall|i: int| 0 <= i < n implies #[trigger] m2[i] == ms[i] by {}
    assert(m2[n] == t);
    assert(message_calls(t).len() == 0);
    assert forall|i: int, j: int| #[trigger] call_at(m2, i, j) implies i < n && call_at(ms, i, j)
        && call_id_at(m2, i, j) == call_id_at(ms, i, j) by {
        if i < n {
            assert(m2[i] == ms[i]);
        }
    }
    assert forall|i: int| 0 <= i < m2.len() implies assistant_nonempty(#[trigger] m2[i]) by {
        if i < n {
            assert(m2[i] == ms[i]);
        }
    }
    assert forall|i1: int, j1: int, i2: int, j2: int|
        call_at(m2, i1, j1) && call_at(m2, i2, j2) && #[trigger] call_id_at(m2, i1, j1) == #[trigger] call_id_at(m2, i2, j2)
        implies i1 == i2 && j1 == j2 by {
        assert(call_at(m2, i1, j1));
        assert(call_at(m2, i2, j2));
        assert(call_id_at(ms, i1, j1) == call_id_at(ms, i2, j2));
    }
    assert forall|i: int, j: int| #[trigger] call_at(m2, i, j) implies {
        &&& known(c2, call_id_at(m2, i, j))
        &&& answered(c2, call_id_at(m2, i, j)) ==> answered_later(m2, i, call_id_at(m2, i, j))
        &&& !answered(c2, call_id_at(m2, i, j)) ==> turn_free_after(m2, i)
    } by {
        let y = call_id_at(m2, i, j);
        assert(call_at(ms, i, j));
        assert(known(c2, y) == known(s.calls, y));
        assert(answered(c2, y) == (answered(s.calls, y) || y == x));
        if answered(s.calls, y) {
            assert(answered_later(ms, i, y));
            let k = choose|k: int| #![trigger ms[k]] i < k < ms.len() && answers(ms[k], y) && turn_free_between(ms, i, k);
            assert(m2[k] == ms[k]);
            assert forall|m: int| i < m < k implies !is_turn_message(#[trigger] m2[m]) by {
                assert(m2[m] == ms[m]);
            }
            assert(answered_later(m2, i, y));
        } else if y == x {
            assert(turn_free_after(ms, i));
            assert forall|m: int| i < m < n implies !is_turn_message(#[trigger] m2[m]) by {
                assert(m2[m] == ms[m]);
            }
            assert(answers(m2[n], y));
            assert(answered_later(m2, i, y));
        } else {
            assert forall|m: int| i < m < m2.len() implies !is_turn_message(#[trigger] m2[m]) by {
                if m < n {
                    assert(m2[m] == ms[m]);
                }
            }
        }
    }
    assert forall|k1: int, k2: int, id: Seq<char>|
        0 <= k1 < m2.len() && 0 <= k2 < m2.len() && #[trigger] answers(m2[k1], id) && #[trigger] answers(m2[k2], id)
        implies k1 == k2 by {
        if k1 < n {
            assert(m2[k1] == ms[k1]);
            assert(answers(ms[k1], id));
        }
        if k2 < n {
            assert(m2[k2] == ms[k2]);
            assert(answers(ms[k2], id));
        }
    }
    assert forall|k: int, id: Seq<char>| 0 <= k < m2.len() && #[trigger] answers(m2[k], id) implies answered(c2, id) by {
        assert(answered(c2, id) == (answered(s.calls, id) || id == x));
        if k < n {
            assert(m2[k] == ms[k]);
            assert(answers(ms[k], id));
        }
    }
    assert(made_call(s, s.calls[ci].id));
    let (wi, wj) = choose|i: int, j: int| #![trigger call_id_at(ms, i, j)] call_at(ms, i, j) && call_id_at(ms, i, j) == x;
    assert forall|k: int| 0 <= k < m2.len() && (#[trigger] m2[k]) is Tool implies answers_earlier_call(m2, k) by {
        if k < n {
            assert(m2[k] == ms[k]);
            assert(answers_earlier_call(ms, k));
            let (i, j) = choose|i: int, j: int| #![trigger call_id_at(ms, i, j)] call_at(ms, i, j) && i < k && answers(ms[k], call_id_at(ms, i, j));
            assert(m2[i] == ms[i]);
            assert(call_id_at(m2, i, j) == call_id_at(ms, i, j));
        } else {
            assert(m2[wi] == ms[wi]);
            assert(call_at(m2, wi, wj) && call_id_at(m2, wi, wj) == x);
        }
    }
    assert forall|q: int| 0 <= q < c2.len() implies made_call(s2, (#[trigger] c2[q]).id) by {
        let y = s.calls[q].id;
        assert(c2[q].id == y);
        assert(made_call(s, y));
        let (i, j) = choose|i: int, j: int| #![trigger call_id_at(ms, i, j)] call_at(ms, i, j) && call_id_at(ms, i, j) == y;
        assert(m2[i] == ms[i]);
        assert(call_at(m2, i, j) && call_id_at(m2, i, j) == y);
        assert(call_at(s2.messages, i, j) && call_id_at(s2.messages, i, j) == y);
        assert(made_call(s2, y));
    }
}

proof fn lemma_turn_pairing(s: HistoryV, m: ChatMessageV)
    requires
        pairing_inv(s),
        s.pending.tool_calls.len() == 0,
        forall|k: int| 0 <= k < s.calls.len() ==> (#[trigger] s.calls[k]).has_output,
        !(m is Assistant),
        !(m is Tool),
    ensures
        pairing_inv(HistoryV { messages: s.messages.push(m), pending: s.pending, calls: s.calls }),
{
    let ms = s.messages;
    let m2 = ms.push(m);
    let n = ms.len() as int;
    let s2 = HistoryV { messages: m2, pending: s.pending, calls: s.calls };
    assert forall|i: int| 0 <= i < n implies #[trigger] m2[i] == ms[i] by {}
    assert(m2[n] == m);
    assert(message_calls(m).len() == 0);
    assert forall|i: int, j: int| #[trigger] call_at(m2, i, j) implies i < n && call_at(ms, i, j)
        && call_id_at(m2, i, j) == call_id_at(ms, i, j) by {
        if i < n {
            assert(m2[i] == ms[i]);
        }
    }
    assert forall|i: int| 0 <= i < m2.len() implies assistant_nonempty(#[trigger] m2[i]) by {
        if i < n {
            assert(m2[i] == ms[i]);
        }
    }
    assert forall|i1: int, j1: int, i2: int, j2: int|
        call_at(m2, i1, j1) && call_at(m2, i2, j2) && #[trigger] call_id_at(m2, i1, j1) == #[trigger] call_id_at(m2, i2, j2)
        implies i1 == i2 && j1 == j2 by {
        assert(call_at(m2, i1, j1));
        assert(call_at(m2, i2, j2));
        assert(call_id_at(ms, i1, j1) == call_id_at(ms, i2, j2));
    }
    assert forall|i: int, j: int| #[trigger] call_at(m2, i, j) implies {
        &&& known(s.calls, call_id_at(m2, i, j))
        &&& answered(s.calls, call_id_at(m2, i, j)) ==> answered_later(m2, i, call_id_at(m2, i, j))
        &&& !answered(s.calls, call_id_at(m2, i, j)) ==> turn_free_after(m2, i)
    } by {
        let y = call_id_at(m2, i, j);
        assert(call_at(ms, i, j));
        lemma_index_exact(s.calls, y);
        assert(answered(s.calls, y));
        assert(answered_later(ms, i, y));
        let k = choose|k: int| #![trigger ms[k]] i < k < ms.len() && answers(ms[k], y) && turn_free_between(ms, i, k);
        assert(m2[k] == ms[k]);
        assert forall|q: int| i < q < k implies !is_turn_message(#[trigger] m2[q]) by {
            assert(m2[q] == ms[q]);
        }
        assert(answered_later(m2, i, y));
    }
    assert forall|k1: int, k2: int, id: Seq<char>|
        0 <= k1 < m2.len() && 0 <= k2 < m2.len() && #[trigger] answers(m2[k1], id) && #[trigger] answers(m2[k2], id)
        implies k1 == k2 by {
        assert(m2[k1] == ms[k1]);
        assert(m2[k2] == ms[k2]);
        assert(answers(ms[k1], id) && answers(ms[k2], id));
    }
    assert forall|k: int, id: Seq<char>| 0 <= k < m2.len() && #[trigger] answers(m2[k], id) implies answered(s.calls, id) by {
        assert(m2[k] == ms[k]);
        assert(answers(ms[k], id));
    }
    assert forall|k: int| 0 <= k < m2.len() && (#[trigger] m2[k]) is Tool implies answers_earlier_call(m2, k) by {
        assert(m2[k] == ms[k]);
        assert(answers_earlier_call(ms, k));
        let (i, j) = choose|i: int, j: int| #![trigger call_id_at(ms, i, j)] call_at(ms, i, j) && i < k && answers(ms[k], call_id_at(ms, i, j));
        assert(m2[i] == ms[i]);
        assert(call_id_at(m2, i, j) == call_id_at(ms, i, j));
    }
    assert forall|q: int| 0 <= q < s.calls.len() implies made_call(s2, (#[trigger] s.calls[q]).id) by {
        let y = s.calls[q].id;
        assert(made_call(s, y));
        let (i, j) = choose|i: int, j: int| #![trigger call_id_at(ms, i, j)] call_at(ms, i, j) && call_id_at(ms, i, j) == y;
        assert(m2[i] == ms[i]);
        assert(call_at(m2, i, j) && call_id_at(m2, i, j) == y);
    }
}

proof fn lemma_resolved_all(calls: Seq<CallV>, next: Seq<char>)
    requires
        spec_ensure_resolved(calls, next) is Ok,
    ensures
        forall|k: int| 0 <= k < calls.len() ==> (#[trigger] calls[k]).has_output,
{
    lemma_sort_len(unresolved_ids(calls));
    lemma_all_answered(calls);
}

proof fn lemma_step_pairing(s: HistoryV, item: InputItem, caps: BackendCapabilities)
    requires
        pairing_inv(s),
        spec_step(s, item, caps) is Ok,
    ensures
        pairing_inv(spec_step(s, item, caps)->Ok_0),
{
    lemma_flush_pairing(s);
    let f = spec_flush(s);
    match item {
        InputItem::Message { role, content } => {
            if role@ == "user"@ {
                lemma_resolved_all(s.calls, "a user message"@);
                lemma_turn_pairing(f, ChatMessageV::User(spec_user_content(content@, caps)->Ok_0));
            } else if role@ == "developer"@ || role@ == "system"@ {
                lemma_resolved_all(s.calls, "a control message"@);
                let parts = text_parts(content@, role@)->Ok_0;
                lemma_turn_pairing(f, control_message(join_with(parts, Seq::empty()), caps));
            }
        },
        InputItem::AgentMessage { author, recipient, content } => {
            lemma_resolved_all(s.calls, "an agent message"@);
            if agent_text(content@).len() > 0 {
                lemma_turn_pairing(
                    f,
                    control_message(
                        "[Agent message from "@ + author@ + " to "@ + recipient@ + "]\n"@ + agent_text(
                            content@,
                        ),
                        caps,
                    ),
                );
            }
        },
        InputItem::FunctionCall { name, namespace, arguments, call_id } => {
            lemma_register_pairing(
                s,
                CallV { id: call_id@, kind: HistoryCallKind::Function, has_output: false },
                ChatToolCallV {
                    id: call_id@,
                    name: spec_safe_name(
                        ToolIdentityV { kind: ToolKind::Function, namespace: opt_string_view(namespace), name: name@ },
                    ),
                    arguments: arguments@,
                },
            );
        },
        InputItem::CustomToolCall { name, namespace, input, call_id } => {
            lemma_register_pairing(
                s,
                CallV { id: call_id@, kind: HistoryCallKind::Custom, has_output: false },
                ChatToolCallV {
                    id: call_id@,
                    name: spec_safe_name(
                        ToolIdentityV { kind: ToolKind::Custom, namespace: opt_string_view(namespace), name: name@ },
                    ),
                    arguments: json_string_object("input"@, input@),
                },
            );
        },
        InputItem::FunctionCallOutput { call_id, output } => {
            let id = call_id.unwrap()@;
            lemma_answer_pairing(f, id, spec_tool_content(output, caps)->Ok_0);
        },
        InputItem::CustomToolCallOutput { call_id, output } => {
            lemma_answer_pairing(f, call_id@, spec_tool_content(output, caps)->Ok_0);
        },
        _ => {},
    }
}

proof fn lemma_steps_pairing(s: HistoryV, items: Seq<InputItem>, caps: BackendCapabilities)
    requires
        pairing_inv(s),
        spec_steps(s, items, caps) is Ok,
    ensures
        pairing_inv(spec_steps(s, items, caps)->Ok_0),
    decreases items.len(),
{
    if items.len() > 0 {
        lemma_step_pairing(s, items[0], caps);
        lemma_steps_pairing(spec_step(s, items[0], caps)->Ok_0, items.drop_first(), caps);
    }
}

/// A compiled history pairs its tool calls: every assistant message says
/// something, no two tool calls share an ID, each call is answered by exactly
/// one later tool message with no user, system or developer message in
/// between, and each tool message answers a call made before it.
pub proof fn lemma_compiled_calls_paired(instructions: Seq<char>, input: Seq<InputItem>, caps: BackendCapabilities)
    requires
        spec_compile_history(instructions, input, caps) is Ok,
    ensures
        calls_paired(spec_compile_history(instructions, input, caps)->Ok_0),
{
    let s0 = initial_history(instructions, caps);
    assert forall|i: int, j: int| #[trigger] call_at(s0.messages, i, j) implies false by {}
    assert(pairing_inv(s0));
    lemma_steps_pairing(s0, input, caps);
    let s = spec_steps(s0, input, caps)->Ok_0;
    lemma_resolved_all(s.calls, "the end of the request"@);
    lemma_flush_pairing(s);
    let f = spec_flush(s);
    let ms = f.messages;
    assert forall|i: int, j: int| #[trigger] call_at(ms, i, j) implies answered_later(ms, i, call_id_at(ms, i, j)) by {
        let y = call_id_at(ms, i, j);
        lemma_index_exact(f.calls, y);
        assert(answered(f.calls, y));
    }
}

}
