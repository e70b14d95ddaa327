//! Closing a side conversation: leaving it, or having the side agent write a
//! summary that is saved to the parent thread before the side thread goes.

use crate::text::{chars_of, concat2, str_is, string_from_chars, trim, trim_chars};
use crate::session::prompt_edit::TurnStatus;
use vstd::prelude::*;

verus! {

/// What the side agent is asked to write.
pub const SIDE_SUMMARY_PROMPT: &'static str = "Summarize this side conversation for the parent thread.\n\nOnly summarize messages, findings, and decisions after the \"Side conversation boundary.\" message. Treat all inherited parent-thread history before that boundary as context only; do not summarize it as side-conversation work.\n\nOutput only the summary text. Do not call tools, continue tasks, or modify workspace state. Include useful conclusions, relevant files or commands mentioned, and unresolved follow-ups.";

/// The heading of a summary saved to the parent thread.
pub const SIDE_SUMMARY_HEADING: &'static str = "Side conversation summary";

/// How the user closes a side conversation.
#[derive(Clone, Copy, Debug, PartialEq, Eq, Structural)]
pub enum CloseChoice {
    Cancel,
    Leave,
    Summarize,
}

/// What closing a side conversation does.
#[derive(Clone, Debug, PartialEq, Eq)]
pub enum CloseAction {
    Nothing,
    ShowError(String),
    /// Return to the parent and discard the side thread.
    ReturnToParent { parent: String },
    /// Ask the side agent for a summary.
    Summarize { side: String, parent: String },
}

/// Leaving is refused while a summary is being written; summarizing needs
/// the side thread shown and its parent known.
pub fn close_side_conversation(
    choice: CloseChoice,
    summary_pending: bool,
    displayed_thread: Option<String>,
    side_parent: Option<String>,
) -> (res: CloseAction)
    ensures
        choice == CloseChoice::Cancel ==> res is Nothing,
        choice == CloseChoice::Leave && summary_pending ==> (res matches CloseAction::ShowError(m) && m@
            == "A side conversation summary is already in progress."@),
        choice == CloseChoice::Leave && !summary_pending ==> match side_parent {
            Some(p) => res matches CloseAction::ReturnToParent { parent } && parent == p,
            None => res is Nothing,
        },
        choice == CloseChoice::Summarize ==> match (displayed_thread, side_parent) {
            (Some(s), Some(p)) => res matches CloseAction::Summarize { side, parent } && side == s
                && parent == p,
            _ => res is Nothing,
        },
{
    match choice {
        CloseChoice::Cancel => CloseAction::Nothing,
        CloseChoice::Leave => {
            if summary_pending {
                return CloseAction::ShowError(
                    String::from_str("A side conversation summary is already in progress."),
                );
            }
            match side_parent {
                Some(p) => CloseAction::ReturnToParent { parent: p },
                None => CloseAction::Nothing,
            }
        },
        CloseChoice::Summarize => match (displayed_thread, side_parent) {
            (Some(s), Some(p)) => CloseAction::Summarize { side: s, parent: p },
            _ => CloseAction::Nothing,
        },
    }
}

/// Where a requested summary is.
#[derive(Clone, Debug, PartialEq, Eq)]
pub enum SummaryTurn {
    AwaitingStart,
    Running(String),
}

/// A summary being written.
#[derive(Clone, Debug, PartialEq, Eq)]
pub struct PendingSideSummary {
    pub side_thread: String,
    pub parent_thread: String,
    pub turn: SummaryTurn,
}

/// A summary starts only when none is being written, the side conversation
/// is idle, and a model is chosen.
pub fn start_side_summary(
    pending: &mut Option<PendingSideSummary>,
    side_thread: String,
    parent_thread: String,
    side_turn_active: bool,
    current_model: &str,
) -> (res: Result<(), String>)
    ensures
        *old(pending) is Some ==> (res matches Err(m) && m@
            == "A side conversation summary is already in progress."@),
        *old(pending) is Some ==> *final(pending) == *old(pending),
        *old(pending) is None && side_turn_active ==> (res matches Err(m) && m@
            == "Wait for the side conversation turn to finish before summarizing."@),
        *old(pending) is None && !side_turn_active && trim(current_model@).len() == 0 ==> (res matches Err(
            m,
        ) && m@
            == "Thread model is unavailable. Wait for the thread to finish syncing or choose a model before summarizing the side conversation."@),
        *old(pending) is None && (side_turn_active || trim(current_model@).len() == 0) ==> *final(pending) is None,
        *old(pending) is None && !side_turn_active && trim(current_model@).len() > 0 ==> res is Ok,
        *old(pending) is None && !side_turn_active && trim(current_model@).len() > 0 ==> *final(pending)
            == Some(PendingSideSummary { side_thread, parent_thread, turn: SummaryTurn::AwaitingStart }),
{
    if pending.is_some() {
        return Err(String::from_str("A side conversation summary is already in progress."));
    }
    if side_turn_active {
        return Err(
            String::from_str("Wait for the side conversation turn to finish before summarizing."),
        );
    }
    if trim_chars(&chars_of(current_model)).len() == 0 {
        return Err(
            String::from_str(
                "Thread model is unavailable. Wait for the thread to finish syncing or choose a model before summarizing the side conversation.",
            ),
        );
    }
    *pending = Some(
        PendingSideSummary { side_thread, parent_thread, turn: SummaryTurn::AwaitingStart },
    );
    Ok(())
}

/// The summary turn could not be submitted: nothing is pending any more.
pub fn summary_submit_failed(pending: &mut Option<PendingSideSummary>, error: &str) -> (res: String)
    ensures
        *final(pending) is None,
        res@ == "Failed to summarize side conversation: "@ + error@,
{
    *pending = None;
    concat2("Failed to summarize side conversation: ", error)
}

/// The summary's turn started on the side thread.
pub fn note_side_summary_turn_started(pending: &mut Option<PendingSideSummary>, side_thread: &str, turn_id: String)
    ensures
        match *old(pending) {
            Some(p) => if p.side_thread@ == side_thread@ {
                *final(pending) == Some(PendingSideSummary { turn: SummaryTurn::Running(turn_id), ..p })
            } else {
                *final(pending) == *old(pending)
            },
            None => *final(pending) is None,
        },
{
    let take = match pending {
        Some(p) => str_is(p.side_thread.as_str(), side_thread),
        None => false,
    };
    if take {
        let p = pending.take().unwrap();
        *pending = Some(PendingSideSummary { turn: SummaryTurn::Running(turn_id), ..p });
    }
}

/// What a completed side turn does to the summary.
#[derive(Clone, Debug, PartialEq, Eq)]
pub enum SummaryOutcome {
    /// Not the summary's turn, or it is still running.
    Ignore,
    ShowError(String),
    /// Save this text to the parent thread, then discard the side thread.
    Save { side_thread: String, parent_thread: String, summary: String },
}

/// The turn is the running summary turn on the side thread.
pub open spec fn is_summary_turn(pending: Option<PendingSideSummary>, side: Seq<char>, turn_id: Seq<char>) -> bool {
    match pending {
        Some(p) => p.side_thread@ == side && match p.turn {
            SummaryTurn::Running(t) => t@ == turn_id,
            SummaryTurn::AwaitingStart => false,
        },
        None => false,
    }
}

/// The summary's turn ended: its text is saved, or the side conversation
/// stays open with the reason.
pub fn side_summary_turn_completed(
    pending: &mut Option<PendingSideSummary>,
    side_thread: &str,
    turn_id: &str,
    status: TurnStatus,
    summary: Option<String>,
) -> (res: SummaryOutcome)
    ensures
        !is_summary_turn(*old(pending), side_thread@, turn_id@) ==> res is Ignore && *final(pending)
            == *old(pending),
        is_summary_turn(*old(pending), side_thread@, turn_id@) ==> match status {
            TurnStatus::InProgress => res is Ignore && *final(pending) == *old(pending),
            TurnStatus::Completed => *final(pending) is None && match summary {
                Some(s) => res matches SummaryOutcome::Save { side_thread: st, parent_thread: pt, summary: sm }
                    && st == (*old(pending)).unwrap().side_thread && pt == (*old(pending)).unwrap().parent_thread
                    && sm == s,
                None => res matches SummaryOutcome::ShowError(m) && m@
                    == "Side conversation summary did not produce assistant text; the side conversation is still open."@,
            },
            TurnStatus::Interrupted => *final(pending) is None && (res matches SummaryOutcome::ShowError(
                m,
            ) && m@
                == "Side conversation summary was interrupted; the side conversation is still open."@),
            TurnStatus::Failed => *final(pending) is None && (res matches SummaryOutcome::ShowError(
                m,
            ) && m@ == "Side conversation summary failed; the side conversation is still open."@),
        },
{
    let current = match pending {
        Some(p) => str_is(p.side_thread.as_str(), side_thread) && match &p.turn {
            SummaryTurn::Running(t) => str_is(t.as_str(), turn_id),
            SummaryTurn::AwaitingStart => false,
        },
        None => false,
    };
    if !current {
        return SummaryOutcome::Ignore;
    }
    match status {
        TurnStatus::InProgress => SummaryOutcome::Ignore,
        TurnStatus::Completed => {
            let p = pending.take().unwrap();
            match summary {
                Some(s) => SummaryOutcome::Save {
                    side_thread: p.side_thread,
                    parent_thread: p.parent_thread,
                    summary: s,
                },
                None => SummaryOutcome::ShowError(
                    String::from_str(
                        "Side conversation summary did not produce assistant text; the side conversation is still open.",
                    ),
                ),
            }
        },
        TurnStatus::Interrupted => {
            *pending = None;
            SummaryOutcome::ShowError(
                String::from_str(
                    "Side conversation summary was interrupted; the side conversation is still open.",
                ),
            )
        },
        TurnStatus::Failed => {
            *pending = None;
            SummaryOutcome::ShowError(
                String::from_str(
                    "Side conversation summary failed; the side conversation is still open.",
                ),
            )
        },
    }
}

/// An item of a side turn, as far as the summary reads it.
#[derive(Clone, Debug, PartialEq, Eq)]
pub enum SummaryItem {
    AgentMessage { text: String },
    Other,
}

/// An event buffered for the side thread.
#[derive(Clone, Debug, PartialEq, Eq)]
pub enum SummaryEvent {
    ItemCompleted { turn_id: String, item: SummaryItem },
    TurnCompleted { turn_id: String, items: Vec<SummaryItem> },
    Other,
}

/// The text of an agent message, trimmed, when not blank.
pub open spec fn agent_text(i: SummaryItem) -> Option<Seq<char>> {
    match i {
        SummaryItem::AgentMessage { text } => if trim(text@).len() > 0 {
            Some(trim(text@))
        } else {
            None
        },
        SummaryItem::Other => None,
    }
}

pub fn agent_message_text(item: &SummaryItem) -> (res: Option<String>)
    ensures
        match res {
            Some(t) => agent_text(*item) == Some(t@),
            None => agent_text(*item) is None,
        },
{
    match item {
        SummaryItem::AgentMessage { text } => {
            let t = trim_chars(&chars_of(text.as_str()));
            if t.len() > 0 {
                Some(string_from_chars(t.as_slice()))
            } else {
                None
            }
        },
        SummaryItem::Other => None,
    }
}

/// The last agent text among `items`.
pub open spec fn last_agent_text(items: Seq<SummaryItem>) -> Option<Seq<char>>
    decreases items.len(),
{
    if items.len() == 0 {
        None
    } else {
        match agent_text(items.last()) {
            Some(t) => Some(t),
            None => last_agent_text(items.drop_last()),
        }
    }
}

fn last_agent_message_text(items: &Vec<SummaryItem>) -> (res: Option<String>)
    ensures
        match res {
            Some(t) => last_agent_text(items@) == Some(t@),
            None => last_agent_text(items@) is None,
        },
{
    let mut i: usize = items.len();
    assert(items@.take(i as int) =~= items@);
    while i > 0
        invariant
            i <= items@.len(),
            last_agent_text(items@) == last_agent_text(items@.take(i as int)),
        decreases i,
    {
        proof {
            assert(items@.take(i as int).drop_last() =~= items@.take(i - 1));
            assert(items@.take(i as int).last() == items@[i - 1]);
        }
        match agent_message_text(&items[i - 1]) {
            Some(t) => return Some(t),
            None => {},
        }
        i -= 1;
    }
    None
}

/// The summary text a buffered event gives for the turn.
pub open spec fn event_text(e: SummaryEvent, turn_id: Seq<char>) -> Option<Seq<char>> {
    match e {
        SummaryEvent::ItemCompleted { turn_id: t, item } => if t@ == turn_id {
            agent_text(item)
        } else {
            None
        },
        SummaryEvent::TurnCompleted { turn_id: t, items } => if t@ == turn_id {
            last_agent_text(items@)
        } else {
            None
        },
        SummaryEvent::Other => None,
    }
}

pub open spec fn last_event_text(events: Seq<SummaryEvent>, turn_id: Seq<char>) -> Option<Seq<char>>
    decreases events.len(),
{
    if events.len() == 0 {
        None
    } else {
        match event_text(events.last(), turn_id) {
            Some(t) => Some(t),
            None => last_event_text(events.drop_last(), turn_id),
        }
    }
}

/// The summary a side turn produced: its last agent message, else the
/// latest one the side thread's buffered events give for that turn.
pub open spec fn spec_summary_text(
    items: Seq<SummaryItem>,
    events: Option<Seq<SummaryEvent>>,
    turn_id: Seq<char>,
) -> Option<Seq<char>> {
    match last_agent_text(items) {
        Some(t) => Some(t),
        None => match events {
            Some(es) => last_event_text(es, turn_id),
            None => None,
        },
    }
}

pub fn side_summary_text(items: &Vec<SummaryItem>, events: Option<&Vec<SummaryEvent>>, turn_id: &str) -> (res:
    Option<String>)
    ensures
        match res {
            Some(t) => spec_summary_text(
                items@,
                match events {
                    Some(e) => Some(e@),
                    None => None,
                },
                turn_id@,
            ) == Some(t@),
            None => spec_summary_text(
                items@,
                match events {
                    Some(e) => Some(e@),
                    None => None,
                },
                turn_id@,
            ) is None,
        },
{
    match last_agent_message_text(items) {
        Some(t) => return Some(t),
        None => {},
    }
    let es = match events {
        Some(es) => es,
        None => return None,
    };
    let mut i: usize = es.len();
    assert(es@.take(i as int) =~= es@);
    while i > 0
        invariant
            i <= es@.len(),
            last_agent_text(items@) is None,
            events matches Some(e) && e@ == es@,
            last_event_text(es@, turn_id@) == last_event_text(es@.take(i as int), turn_id@),
        decreases i,
    {
        proof {
            assert(es@.take(i as int).drop_last() =~= es@.take(i - 1));
            assert(es@.take(i as int).last() == es@[i - 1]);
        }
        let found = match &es[i - 1] {
            SummaryEvent::ItemCompleted { turn_id: t, item } => {
                if str_is(t.as_str(), turn_id) {
                    agent_message_text(item)
                } else {
                    None
                }
            },
            SummaryEvent::TurnCompleted { turn_id: t, items } => {
                if str_is(t.as_str(), turn_id) {
                    last_agent_message_text(items)
                } else {
                    None
                }
            },
            SummaryEvent::Other => None,
        };
        match found {
            Some(t) => return Some(t),
            None => {},
        }
        i -= 1;
    }
    None
}

/// The assistant note saved to the parent thread: the heading, a blank line,
/// and the trimmed summary.
pub fn side_summary_injection_text(summary: &str) -> (res: String)
    ensures
        res@ == SIDE_SUMMARY_HEADING@ + "\n\n"@ + trim(summary@),
{
    let trimmed = string_from_chars(trim_chars(&chars_of(summary)).as_slice());
    crate::text::concat3(SIDE_SUMMARY_HEADING, "\n\n", trimmed.as_str())
}

/// The role of the saved summary note.
pub fn side_summary_role() -> (res: String)
    ensures
        res@ == "assistant"@,
{
    String::from_str("assistant")
}

/// Returning to the parent thread failed before the summary was saved.
pub fn return_failed_message(error: &str) -> (res: String)
    ensures
        res@ == "Failed to return to the parent thread before saving the side conversation summary: "@
            + error@,
{
    concat2(
        "Failed to return to the parent thread before saving the side conversation summary: ",
        error,
    )
}

/// Saving the summary to the parent thread failed.
pub fn save_failed_message(error: &str) -> (res: String)
    ensures
        res@ == "Failed to save side conversation summary; the side conversation is still open: "@
            + error@,
{
    concat2(
        "Failed to save side conversation summary; the side conversation is still open: ",
        error,
    )
}

} // verus!
