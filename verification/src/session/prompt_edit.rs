//! Editing an earlier prompt: the turns it is looked up in, and how the edit
//! is applied by replacing the conversation or forking a new one.

use crate::text::{concat2, str_is};
use vstd::prelude::*;

verus! {

/// The kinds of turn item that matter when looking up a prompt.
#[derive(Clone, Copy, Debug, PartialEq, Eq, Structural)]
pub enum ItemKind {
    UserMessage,
    EnteredReviewMode,
    ExitedReviewMode,
    Other,
}

/// An item of a turn.
#[derive(Clone, Debug, PartialEq, Eq)]
pub struct TurnItem {
    pub id: String,
    pub kind: ItemKind,
}

/// How a turn ended, if it did.
#[derive(Clone, Copy, Debug, PartialEq, Eq, Structural)]
pub enum TurnStatus {
    Completed,
    Interrupted,
    Failed,
    InProgress,
}

/// A turn of a conversation.
#[derive(Clone, Debug, PartialEq, Eq)]
pub struct TurnRecord {
    pub id: String,
    pub status: TurnStatus,
    pub error: Option<String>,
    pub started_at: Option<i64>,
    pub completed_at: Option<i64>,
    pub duration_ms: Option<i64>,
    pub items: Vec<TurnItem>,
}

pub struct TurnV {
    pub id: Seq<char>,
    pub status: TurnStatus,
    pub error: Option<Seq<char>>,
    pub started_at: Option<i64>,
    pub completed_at: Option<i64>,
    pub duration_ms: Option<i64>,
    pub items: Seq<(Seq<char>, ItemKind)>,
}

pub open spec fn item_view(i: TurnItem) -> (Seq<char>, ItemKind) {
    (i.id@, i.kind)
}

impl View for TurnRecord {
    type V = TurnV;

    open spec fn view(&self) -> TurnV {
        TurnV {
            id: self.id@,
            status: self.status,
            error: match self.error {
                Some(e) => Some(e@),
                None => None,
            },
            started_at: self.started_at,
            completed_at: self.completed_at,
            duration_ms: self.duration_ms,
            items: self.items@.map_values(|i: TurnItem| item_view(i)),
        }
    }
}

pub open spec fn turns_view(s: Seq<TurnRecord>) -> Seq<TurnV> {
    s.map_values(|t: TurnRecord| t@)
}

/// A live event buffered for a thread after its loaded history.
#[derive(Clone, Debug, PartialEq, Eq)]
pub enum BufferedEvent {
    TurnStarted(TurnRecord),
    ItemCompleted { turn_id: String, item: TurnItem },
    TurnCompleted(TurnRecord),
    Other,
}

pub enum BufferedEventV {
    TurnStarted(TurnV),
    ItemCompleted { turn_id: Seq<char>, item: (Seq<char>, ItemKind) },
    TurnCompleted(TurnV),
    Other,
}

pub open spec fn event_view(e: BufferedEvent) -> BufferedEventV {
    match e {
        BufferedEvent::TurnStarted(t) => BufferedEventV::TurnStarted(t@),
        BufferedEvent::ItemCompleted { turn_id, item } => BufferedEventV::ItemCompleted {
            turn_id: turn_id@,
            item: item_view(item),
        },
        BufferedEvent::TurnCompleted(t) => BufferedEventV::TurnCompleted(t@),
        BufferedEvent::Other => BufferedEventV::Other,
    }
}

/// The position of the first turn with id `id`, or the length.
pub open spec fn turn_pos(ts: Seq<TurnV>, id: Seq<char>, i: int) -> int
    decreases ts.len() - i,
{
    if i < 0 || i >= ts.len() {
        ts.len() as int
    } else if ts[i].id == id {
        i
    } else {
        turn_pos(ts, id, i + 1)
    }
}

/// Items a prompt lookup needs: user messages and review mode changes.
pub open spec fn is_prompt_item(k: ItemKind) -> bool {
    k == ItemKind::UserMessage || k == ItemKind::EnteredReviewMode || k == ItemKind::ExitedReviewMode
}

pub open spec fn has_item(items: Seq<(Seq<char>, ItemKind)>, id: Seq<char>) -> bool {
    exists|j: int| 0 <= j < items.len() && #[trigger] items[j].0 == id
}

/// One buffered event applied to the loaded turns: a new turn is added, a
/// completed prompt item joins its turn once, and a completed turn's outcome
/// and timing replace the loaded ones.
pub open spec fn merge_event(ts: Seq<TurnV>, e: BufferedEventV) -> Seq<TurnV> {
    match e {
        BufferedEventV::TurnStarted(t) => if turn_pos(ts, t.id, 0) < ts.len() {
            ts
        } else {
            ts.push(t)
        },
        BufferedEventV::ItemCompleted { turn_id, item } => {
            let p = turn_pos(ts, turn_id, 0);
            if is_prompt_item(item.1) && p < ts.len() && !has_item(ts[p].items, item.0) {
                ts.update(p, TurnV { items: ts[p].items.push(item), ..ts[p] })
            } else {
                ts
            }
        },
        BufferedEventV::TurnCompleted(t) => {
            let p = turn_pos(ts, t.id, 0);
            if p < ts.len() {
                ts.update(
                    p,
                    TurnV {
                        status: t.status,
                        error: t.error,
                        started_at: t.started_at,
                        completed_at: t.completed_at,
                        duration_ms: t.duration_ms,
                        ..ts[p]
                    },
                )
            } else {
                ts
            }
        },
        BufferedEventV::Other => ts,
    }
}

pub open spec fn merge_events(ts: Seq<TurnV>, es: Seq<BufferedEventV>) -> Seq<TurnV>
    decreases es.len(),
{
    if es.len() == 0 {
        ts
    } else {
        merge_event(merge_events(ts, es.drop_last()), es.last())
    }
}

fn find_turn(ts: &Vec<TurnRecord>, id: &str) -> (res: usize)
    ensures
        res == turn_pos(turns_view(ts@), id@, 0),
{
    let ghost v = turns_view(ts@);
    let n = ts.len();
    let mut i: usize = 0;
    while i < n
        invariant
            n == ts@.len(),
            v == turns_view(ts@),
            i <= n,
            turn_pos(v, id@, 0) == turn_pos(v, id@, i as int),
        decreases n - i,
    {
        if str_is(ts[i].id.as_str(), id) {
            return i;
        }
        i += 1;
    }
    n
}

proof fn lemma_turn_pos(ts: Seq<TurnV>, id: Seq<char>, i: int)
    requires
        0 <= i <= ts.len(),
    ensures
        i <= turn_pos(ts, id, i) <= ts.len(),
    decreases ts.len() - i,
{
    if i < ts.len() && ts[i].id != id {
        lemma_turn_pos(ts, id, i + 1);
    }
}

fn contains_item(items: &Vec<TurnItem>, id: &str) -> (res: bool)
    ensures
        res == has_item(items@.map_values(|i: TurnItem| item_view(i)), id@),
{
    let ghost v = items@.map_values(|i: TurnItem| item_view(i));
    let n = items.len();
    let mut i: usize = 0;
    while i < n
        invariant
            n == items@.len(),
            v == items@.map_values(|i: TurnItem| item_view(i)),
            i <= n,
            forall|j: int| 0 <= j < i ==> #[trigger] v[j].0 != id@,
        decreases n - i,
    {
        if str_is(items[i].id.as_str(), id) {
            assert(v[i as int].0 == id@);
            return true;
        }
        i += 1;
    }
    false
}

fn clone_item(i: &TurnItem) -> (res: TurnItem)
    ensures
        res == *i,
{
    TurnItem { id: i.id.clone(), kind: i.kind }
}

fn clone_opt(s: &Option<String>) -> (res: Option<String>)
    ensures
        res == *s,
{
    match s {
        Some(v) => Some(v.clone()),
        None => None,
    }
}

fn clone_turn(t: &TurnRecord) -> (res: TurnRecord)
    ensures
        res@ == t@,
{
    let mut items: Vec<TurnItem> = Vec::new();
    let n = t.items.len();
    let mut i: usize = 0;
    while i < n
        invariant
            n == t.items@.len(),
            i <= n,
            items@ == t.items@.take(i as int),
        decreases n - i,
    {
        items.push(clone_item(&t.items[i]));
        assert(items@ =~= t.items@.take(i + 1));
        i += 1;
    }
    assert(items@ =~= t.items@);
    TurnRecord {
        id: t.id.clone(),
        status: t.status,
        error: clone_opt(&t.error),
        started_at: t.started_at,
        completed_at: t.completed_at,
        duration_ms: t.duration_ms,
        items,
    }
}

/// Applies one buffered event to the turns.
pub fn merge_buffered_event(turns: &mut Vec<TurnRecord>, event: &BufferedEvent)
    ensures
        turns_view(final(turns)@) == merge_event(turns_view(old(turns)@), event_view(*event)),
{
    let ghost v = turns_view(turns@);
    match event {
        BufferedEvent::TurnStarted(t) => {
            if find_turn(turns, t.id.as_str()) >= turns.len() {
                turns.push(clone_turn(t));
                assert(turns_view(turns@) =~= v.push(t@));
            }
        },
        BufferedEvent::ItemCompleted { turn_id, item } => {
            let p = find_turn(turns, turn_id.as_str());
            proof {
                lemma_turn_pos(v, turn_id@, 0);
            }
            let prompt_item = item.kind == ItemKind::UserMessage || item.kind
                == ItemKind::EnteredReviewMode || item.kind == ItemKind::ExitedReviewMode;
            if prompt_item && p < turns.len() && !contains_item(&turns[p].items, item.id.as_str()) {
                let mut turn = turns.remove(p);
                let ghost old_items = turn.items@;
                turn.items.push(clone_item(item));
                assert(turn.items@.map_values(|i: TurnItem| item_view(i)) =~= old_items.map_values(
                    |i: TurnItem| item_view(i),
                ).push(item_view(*item)));
                turns.insert(p, turn);
                assert(turns_view(turns@) =~= merge_event(v, event_view(*event)));
            }
        },
        BufferedEvent::TurnCompleted(t) => {
            let p = find_turn(turns, t.id.as_str());
            proof {
                lemma_turn_pos(v, t.id@, 0);
            }
            if p < turns.len() {
                let mut turn = turns.remove(p);
                turn.status = t.status;
                turn.error = clone_opt(&t.error);
                turn.started_at = t.started_at;
                turn.completed_at = t.completed_at;
                turn.duration_ms = t.duration_ms;
                turns.insert(p, turn);
                assert(turns_view(turns@) =~= merge_event(v, event_view(*event)));
            }
        },
        BufferedEvent::Other => {},
    }
}

/// The turns a prompt is looked up in: the loaded ones, brought up to date by
/// the live events buffered after them.
pub fn merge_buffered_events(turns: &mut Vec<TurnRecord>, events: &Vec<BufferedEvent>)
    ensures
        turns_view(final(turns)@) == merge_events(
            turns_view(old(turns)@),
            events@.map_values(|e: BufferedEvent| event_view(e)),
        ),
{
    let ghost t0 = turns_view(turns@);
    let ghost ev = events@.map_values(|e: BufferedEvent| event_view(e));
    let n = events.len();
    let mut i: usize = 0;
    while i < n
        invariant
            n == events@.len(),
            ev == events@.map_values(|e: BufferedEvent| event_view(e)),
            i <= n,
            turns_view(turns@) == merge_events(t0, ev.take(i as int)),
        decreases n - i,
    {
        proof {
            assert(ev.take(i + 1).drop_last() =~= ev.take(i as int));
            assert(ev.take(i + 1).last() == ev[i as int]);
        }
        merge_buffered_event(turns, &events[i]);
        i += 1;
    }
    assert(ev.take(n as int) =~= ev);
}

/// How an earlier prompt is edited.
#[derive(Clone, Copy, Debug, PartialEq, Eq, Structural)]
pub enum PromptEditMode {
    /// Replace the prompt and discard everything after it.
    Replace,
    /// Keep the conversation and continue on a new branch.
    Fork,
}

/// A choice of the edit menu.
#[derive(Clone, Debug, PartialEq, Eq)]
pub struct PromptEditChoice {
    pub mode: PromptEditMode,
    pub name: String,
    pub description: String,
}

/// The edit menu's title.
pub fn prompt_edit_title() -> (res: String)
    ensures
        res@ == "Edit previous prompt"@,
{
    String::from_str("Edit previous prompt")
}

/// The edit menu: replacing first, then forking.
pub fn prompt_edit_choices() -> (res: Vec<PromptEditChoice>)
    ensures
        res@.len() == 2,
        res@[0].mode == PromptEditMode::Replace,
        res@[0].name@ == "Edit this conversation"@,
        res@[0].description@ == "Replace this prompt and discard everything after it."@,
        res@[1].mode == PromptEditMode::Fork,
        res@[1].name@ == "Edit in a new conversation"@,
        res@[1].description@ == "Keep the original conversation and continue on a new branch."@,
{
    let mut v: Vec<PromptEditChoice> = Vec::new();
    v.push(
        PromptEditChoice {
            mode: PromptEditMode::Replace,
            name: String::from_str("Edit this conversation"),
            description: String::from_str("Replace this prompt and discard everything after it."),
        },
    );
    v.push(
        PromptEditChoice {
            mode: PromptEditMode::Fork,
            name: String::from_str("Edit in a new conversation"),
            description: String::from_str(
                "Keep the original conversation and continue on a new branch.",
            ),
        },
    );
    v
}

/// Whether an edit can go ahead.
#[derive(Clone, Debug, PartialEq, Eq)]
pub enum EditGuard {
    /// The selected thread is no longer shown: drop the edit.
    Ignore,
    /// Not yet: give the prompt back with this message.
    Blocked(String),
    Proceed,
}

/// An edit goes ahead on the shown thread once its permissions are settled.
pub fn prompt_edit_guard(displayed_thread: Option<&str>, thread: &str, permissions_pending: bool) -> (res:
    EditGuard)
    ensures
        !(displayed_thread matches Some(d) && d@ == thread@) ==> res is Ignore,
        (displayed_thread matches Some(d) && d@ == thread@) && permissions_pending ==> (res matches EditGuard::Blocked(
            m,
        ) && m@ == "Wait for permissions to update before editing this prompt."@),
        (displayed_thread matches Some(d) && d@ == thread@) && !permissions_pending ==> res is Proceed,
{
    let shown = match displayed_thread {
        Some(d) => str_is(d, thread),
        None => false,
    };
    if !shown {
        EditGuard::Ignore
    } else if permissions_pending {
        EditGuard::Blocked(
            String::from_str("Wait for permissions to update before editing this prompt."),
        )
    } else {
        EditGuard::Proceed
    }
}

/// What replacing from a prompt reverts to: the turn before which the
/// conversation is cut, or the first turn when the prompt opens it.
pub open spec fn spec_replace_target(
    turns_known: bool,
    before_turn: Result<Option<Seq<char>>, Seq<char>>,
    first_turn: Option<Seq<char>>,
) -> Result<Seq<char>, Seq<char>> {
    if !turns_known {
        Err("the selected thread is no longer available for prompt editing"@)
    } else {
        match before_turn {
            Err(e) => Err(e),
            Ok(Some(t)) => Ok(t),
            Ok(None) => match first_turn {
                Some(t) => Ok(t),
                None => Err("the selected prompt was not found"@),
            },
        }
    }
}

pub fn replace_target(turns_known: bool, before_turn: Result<Option<String>, String>, first_turn: Option<String>) -> (res:
    Result<String, String>)
    ensures
        match spec_replace_target(
            turns_known,
            match before_turn {
                Ok(Some(t)) => Ok(Some(t@)),
                Ok(None) => Ok(None),
                Err(e) => Err(e@),
            },
            match first_turn {
                Some(t) => Some(t@),
                None => None,
            },
        ) {
            Ok(t) => res matches Ok(r) && r@ == t,
            Err(e) => res matches Err(r) && r@ == e,
        },
{
    if !turns_known {
        return Err(String::from_str("the selected thread is no longer available for prompt editing"));
    }
    match before_turn {
        Err(e) => Err(e),
        Ok(Some(t)) => Ok(t),
        Ok(None) => match first_turn {
            Some(t) => Ok(t),
            None => Err(String::from_str("the selected prompt was not found")),
        },
    }
}

/// How a fork for an edit starts.
#[derive(Clone, Debug, PartialEq, Eq)]
pub enum ForkPlan {
    /// Fork the thread before this turn (or its start, if none).
    ForkBefore(Option<String>),
    /// The prompt opens a thread with no older history: start a new thread.
    StartNew,
    Fail(String),
}

/// A fork needs a turn to cut before, or older history; otherwise the edit
/// starts a new thread.
pub fn fork_plan(
    turns_known: bool,
    before_turn: Result<Option<String>, String>,
    has_older_history: bool,
    first_turn: Option<String>,
) -> (res: ForkPlan)
    ensures
        !turns_known ==> (res matches ForkPlan::Fail(m) && m@
            == "the selected thread is no longer available for prompt editing"@),
        turns_known ==> match before_turn {
            Err(e) => res matches ForkPlan::Fail(m) && m@ == e@,
            Ok(Some(t)) => res matches ForkPlan::ForkBefore(Some(u)) && u@ == t@,
            Ok(None) => if has_older_history {
                match first_turn {
                    Some(f) => res matches ForkPlan::ForkBefore(Some(u)) && u@ == f@,
                    None => res matches ForkPlan::ForkBefore(None),
                }
            } else {
                res is StartNew
            },
        },
{
    if !turns_known {
        return ForkPlan::Fail(
            String::from_str("the selected thread is no longer available for prompt editing"),
        );
    }
    match before_turn {
        Err(e) => ForkPlan::Fail(e),
        Ok(Some(t)) => ForkPlan::ForkBefore(Some(t)),
        Ok(None) => {
            if has_older_history {
                ForkPlan::ForkBefore(first_turn)
            } else {
                ForkPlan::StartNew
            }
        },
    }
}

/// The message shown when replacing the conversation failed.
pub fn replace_failed_message(error: &str) -> (res: String)
    ensures
        res@ == "Failed to replace the conversation from the selected prompt: "@ + error@,
{
    concat2("Failed to replace the conversation from the selected prompt: ", error)
}

/// The message shown when the replaced conversation could not be reloaded.
pub fn refresh_failed_message(error: &str) -> (res: String)
    ensures
        res@ == "Conversation was replaced, but could not be refreshed: "@ + error@,
{
    concat2("Conversation was replaced, but could not be refreshed: ", error)
}

/// Whether an event drained after a revert is still delivered: one that
/// belongs to the reverted thread could restore discarded turns and is
/// dropped; events of other threads, and those of no thread (lag,
/// disconnection), are delivered. `event_thread` is the thread the event
/// belongs to.
pub fn deliver_after_revert(event_thread: Option<&str>, reverted_thread: &str) -> (res: bool)
    ensures
        res == !(event_thread matches Some(t) && t@ == reverted_thread@),
{
    match event_thread {
        Some(t) => !str_is(t, reverted_thread),
        None => true,
    }
}

/// The positions of the drained events that are still delivered after a
/// revert, in order; `event_threads` gives each event's thread.
pub fn events_to_deliver_after_revert(event_threads: &Vec<Option<String>>, reverted_thread: &str) -> (res: Vec<usize>)
    ensures
        res@ == delivered_positions(event_threads@, reverted_thread@, event_threads@.len() as int),
{
    let n = event_threads.len();
    let mut out: Vec<usize> = Vec::new();
    let mut i: usize = 0;
    while i < n
        invariant
            n == event_threads@.len(),
            i <= n,
            out@ == delivered_positions(event_threads@, reverted_thread@, i as int),
        decreases n - i,
    {
        let keep = match &event_threads[i] {
            Some(t) => deliver_after_revert(Some(t.as_str()), reverted_thread),
            None => deliver_after_revert(None, reverted_thread),
        };
        if keep {
            out.push(i);
        }
        i += 1;
    }
    out
}

/// The positions below `n` of the events that do not belong to `reverted`.
pub open spec fn delivered_positions(threads: Seq<Option<String>>, reverted: Seq<char>, n: int) -> Seq<usize>
    decreases n,
{
    if n <= 0 {
        Seq::empty()
    } else {
        let rest = delivered_positions(threads, reverted, n - 1);
        if threads[n - 1] matches Some(t) && t@ == reverted {
            rest
        } else {
            rest.push((n - 1) as usize)
        }
    }
}

} // verus!
