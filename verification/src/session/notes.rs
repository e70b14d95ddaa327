//! Loading a thread's notes to self, kept apart from its transcript: paged
//! history is read page by page, older history all at once.

use crate::agents::table::{add_key, has_key, key_add, key_in, keys_view};
use crate::rollout::usage::ends_with_chars;
use crate::text::chars_of;
use vstd::prelude::*;

verus! {

/// A note to self.
#[derive(Clone, Debug, PartialEq, Eq)]
pub struct NoteToSelf {
    pub id: String,
    pub text: String,
}

/// An item of a thread's history.
#[derive(Clone, Debug, PartialEq, Eq)]
pub enum HistoryItem {
    Note { id: String, note: String },
    Other,
}

pub open spec fn note_of(i: HistoryItem) -> Option<(Seq<char>, Seq<char>)> {
    match i {
        HistoryItem::Note { id, note } => Some((id@, note@)),
        HistoryItem::Other => None,
    }
}

pub open spec fn notes_view(s: Seq<NoteToSelf>) -> Seq<(Seq<char>, Seq<char>)> {
    s.map_values(|n: NoteToSelf| (n.id@, n.text@))
}

/// The notes among `items`, in order.
pub open spec fn notes_in(items: Seq<HistoryItem>) -> Seq<(Seq<char>, Seq<char>)>
    decreases items.len(),
{
    if items.len() == 0 {
        Seq::empty()
    } else {
        let rest = notes_in(items.drop_last());
        match note_of(items.last()) {
            Some(n) => rest.push(n),
            None => rest,
        }
    }
}

/// The notes among `items`, newest first.
pub open spec fn notes_in_reverse(items: Seq<HistoryItem>) -> Seq<(Seq<char>, Seq<char>)>
    decreases items.len(),
{
    if items.len() == 0 {
        Seq::empty()
    } else {
        let first = match note_of(items.last()) {
            Some(n) => seq![n],
            None => Seq::empty(),
        };
        first + notes_in_reverse(items.drop_last())
    }
}

/// The notes of whole turns, newest turn and newest item first.
pub open spec fn notes_of_turns(turns: Seq<Seq<HistoryItem>>) -> Seq<(Seq<char>, Seq<char>)>
    decreases turns.len(),
{
    if turns.len() == 0 {
        Seq::empty()
    } else {
        notes_in_reverse(turns.last()) + notes_of_turns(turns.drop_last())
    }
}

fn push_notes_reverse(out: &mut Vec<NoteToSelf>, items: &Vec<HistoryItem>)
    ensures
        notes_view(final(out)@) == notes_view(old(out)@) + notes_in_reverse(items@),
{
    let ghost start = notes_view(out@);
    let mut i: usize = items.len();
    assert(items@.take(i as int) =~= items@);
    while i > 0
        invariant
            i <= items@.len(),
            notes_view(out@) + notes_in_reverse(items@.take(i as int)) == start + notes_in_reverse(
                items@,
            ),
        decreases i,
    {
        let ghost before = notes_view(out@);
        proof {
            assert(items@.take(i as int).drop_last() =~= items@.take(i - 1));
            assert(items@.take(i as int).last() == items@[i - 1]);
        }
        match &items[i - 1] {
            HistoryItem::Note { id, note } => {
                out.push(NoteToSelf { id: id.clone(), text: note.clone() });
                assert(notes_view(out@) =~= before.push((id@, note@)));
                assert(before.push((id@, note@)) + notes_in_reverse(items@.take(i - 1)) =~= before
                    + notes_in_reverse(items@.take(i as int)));
            },
            HistoryItem::Other => {
                assert(Seq::<(Seq<char>, Seq<char>)>::empty() + notes_in_reverse(items@.take(i - 1))
                    =~= notes_in_reverse(items@.take(i - 1)));
            },
        }
        i -= 1;
    }
    assert(items@.take(0) =~= Seq::<HistoryItem>::empty());
    assert(notes_view(out@) + Seq::<(Seq<char>, Seq<char>)>::empty() =~= notes_view(out@));
}

/// The notes of a thread read with all its turns: newest first.
pub fn notes_from_turns(turns: &Vec<Vec<HistoryItem>>) -> (res: Vec<NoteToSelf>)
    ensures
        notes_view(res@) == notes_of_turns(turns@.map_values(|t: Vec<HistoryItem>| t@)),
{
    let ghost tv = turns@.map_values(|t: Vec<HistoryItem>| t@);
    let mut out: Vec<NoteToSelf> = Vec::new();
    let mut i: usize = turns.len();
    assert(tv.take(i as int) =~= tv);
    assert(notes_view(out@) =~= Seq::<(Seq<char>, Seq<char>)>::empty());
    while i > 0
        invariant
            i <= turns@.len(),
            tv == turns@.map_values(|t: Vec<HistoryItem>| t@),
            notes_view(out@) + notes_of_turns(tv.take(i as int)) == notes_of_turns(tv),
        decreases i,
    {
        let ghost before = notes_view(out@);
        proof {
            assert(tv.take(i as int).drop_last() =~= tv.take(i - 1));
            assert(tv.take(i as int).last() == turns@[i - 1]@);
        }
        push_notes_reverse(&mut out, &turns[i - 1]);
        assert(notes_view(out@) + notes_of_turns(tv.take(i - 1)) =~= before + notes_of_turns(
            tv.take(i as int),
        ));
        i -= 1;
    }
    assert(tv.take(0) =~= Seq::<Seq<HistoryItem>>::empty());
    assert(notes_view(out@) + Seq::<(Seq<char>, Seq<char>)>::empty() =~= notes_view(out@));
    out
}

/// What loading the notes does next.
#[derive(Debug, PartialEq, Eq)]
pub enum NotesStep {
    /// Request the history page at this cursor.
    FetchPage { cursor: Option<String> },
    /// Ask whether the thread has any turn yet.
    ProbeTurns,
    /// Read the thread with all its turns.
    ReadAllTurns,
    Done(Result<Vec<NoteToSelf>, String>),
}

/// How loading starts: an ephemeral thread has no saved notes; paged
/// history is read by pages, older history all at once.
pub fn first_notes_step(ephemeral: bool, paged: bool) -> (res: NotesStep)
    ensures
        ephemeral ==> (res matches NotesStep::Done(Ok(v)) && v@.len() == 0),
        !ephemeral && paged ==> (res matches NotesStep::FetchPage { cursor: None }),
        !ephemeral && !paged ==> res is ReadAllTurns,
{
    if ephemeral {
        NotesStep::Done(Ok(Vec::new()))
    } else if paged {
        NotesStep::FetchPage { cursor: None }
    } else {
        NotesStep::ReadAllTurns
    }
}

/// A request that failed: the server's error code and message when the
/// server answered, and the error written out.
#[derive(Clone, Debug, PartialEq, Eq)]
pub struct RequestFailure {
    pub server: Option<(i64, String)>,
    pub error: String,
}

/// The state of a paged notes load.
#[derive(Clone, Debug, PartialEq, Eq)]
pub struct NotesPaging {
    pub notes: Vec<NoteToSelf>,
    pub seen_cursors: Vec<String>,
    pub first_page: bool,
    /// The error of the first page, kept while the probe decides on it.
    pub page_error: Option<String>,
}

/// The server has no such method: the thread has no history index yet.
pub open spec fn method_missing(f: RequestFailure) -> bool {
    f.server matches Some((code, _)) && code == -32601
}

impl NotesPaging {
    pub fn new() -> (res: NotesPaging)
        ensures
            res.notes@.len() == 0,
            res.seen_cursors@.len() == 0,
            res.first_page,
            res.page_error is None,
    {
        NotesPaging { notes: Vec::new(), seen_cursors: Vec::new(), first_page: true, page_error: None }
    }

    /// Takes one history page: its notes are kept in order, and a repeated
    /// cursor fails the load. A first page that fails because the history has
    /// no index yet is probed before it counts as a failure.
    pub fn on_page(&mut self, page: Result<(Vec<HistoryItem>, Option<String>), RequestFailure>) -> (res:
        NotesStep)
        ensures
            match page {
                Err(f) => if old(self).first_page && method_missing(f) {
                    res is ProbeTurns && final(self).page_error == Some(f.error)
                        && final(self).notes@ == old(self).notes@
                } else {
                    res matches NotesStep::Done(Err(e)) && e@ == f.error@
                },
                Ok((items, next)) => {
                    let notes = notes_view(old(self).notes@) + notes_in(items@);
                    &&& notes_view(final(self).notes@) == notes
                    &&& !final(self).first_page
                    &&& match next {
                        None => res matches NotesStep::Done(Ok(v)) && notes_view(v@) == notes,
                        Some(c) => if key_in(keys_view(old(self).seen_cursors@), c@) {
                            res matches NotesStep::Done(Err(e)) && e@
                                == "Notes could not be loaded: history returned a repeated cursor"@
                        } else {
                            &&& res matches NotesStep::FetchPage { cursor: Some(d) }
                            &&& d@ == c@
                            &&& keys_view(final(self).seen_cursors@) == key_add(
                                keys_view(old(self).seen_cursors@),
                                c@,
                            )
                        },
                    }
                },
            },
    {
        match page {
            Err(f) => {
                let missing = match &f.server {
                    Some((code, _)) => *code == -32601,
                    None => false,
                };
                if self.first_page && missing {
                    self.page_error = Some(f.error);
                    NotesStep::ProbeTurns
                } else {
                    NotesStep::Done(Err(f.error))
                }
            },
            Ok((items, next)) => {
                self.first_page = false;
                let ghost before = notes_view(self.notes@);
                let n = items.len();
                let mut i: usize = 0;
                while i < n
                    invariant
                        n == items@.len(),
                        i <= n,
                        notes_view(self.notes@) == before + notes_in(items@.take(i as int)),
                        self.seen_cursors == old(self).seen_cursors,
                        !self.first_page,
                    decreases n - i,
                {
                    proof {
                        assert(items@.take(i + 1).drop_last() =~= items@.take(i as int));
                        assert(items@.take(i + 1).last() == items@[i as int]);
                    }
                    match &items[i] {
                        HistoryItem::Note { id, note } => {
                            let ghost prev = notes_view(self.notes@);
                            self.notes.push(NoteToSelf { id: id.clone(), text: note.clone() });
                            assert(notes_view(self.notes@) =~= prev.push((id@, note@)));
                        },
                        HistoryItem::Other => {},
                    }
                    i += 1;
                }
                assert(items@.take(n as int) =~= items@);
                match next {
                    None => {
                        let mut out: Vec<NoteToSelf> = Vec::new();
                        let m = self.notes.len();
                        let mut j: usize = 0;
                        while j < m
                            invariant
                                m == self.notes@.len(),
                                j <= m,
                                out@ == self.notes@.take(j as int),
                            decreases m - j,
                        {
                            out.push(
                                NoteToSelf {
                                    id: self.notes[j].id.clone(),
                                    text: self.notes[j].text.clone(),
                                },
                            );
                            assert(out@ =~= self.notes@.take(j + 1));
                            j += 1;
                        }
                        assert(out@ =~= self.notes@);
                        NotesStep::Done(Ok(out))
                    },
                    Some(c) => {
                        if has_key(&self.seen_cursors, c.as_str()) {
                            NotesStep::Done(
                                Err(
                                    String::from_str(
                                        "Notes could not be loaded: history returned a repeated cursor",
                                    ),
                                ),
                            )
                        } else {
                            add_key(&mut self.seen_cursors, c.clone());
                            NotesStep::FetchPage { cursor: Some(c) }
                        }
                    },
                }
            },
        }
    }

    /// Takes the answer of the probe: a thread with no turn yet has no
    /// notes; otherwise the first page's failure stands.
    pub fn on_probe(&mut self, probe: Result<(bool, bool), RequestFailure>) -> (res: NotesStep)
        requires
            old(self).page_error is Some,
        ensures
            ({
                let empty = match probe {
                    Ok((no_turns, no_next)) => no_turns && no_next,
                    Err(f) => f.server matches Some((_, m)) && m@.len() >= "thread/turns/list is unavailable before first user message"@.len()
                        && m@.subrange(
                        m@.len() - "thread/turns/list is unavailable before first user message"@.len(),
                        m@.len() as int,
                    ) == "thread/turns/list is unavailable before first user message"@,
                };
                if empty {
                    res matches NotesStep::Done(Ok(v)) && v@.len() == 0
                } else {
                    res matches NotesStep::Done(Err(e)) && Some(e) == old(self).page_error
                }
            }),
    {
        let empty = match &probe {
            Ok((no_turns, no_next)) => *no_turns && *no_next,
            Err(f) => match &f.server {
                Some((_, m)) => ends_with_chars(
                    &chars_of(m.as_str()),
                    "thread/turns/list is unavailable before first user message",
                ),
                None => false,
            },
        };
        if empty {
            NotesStep::Done(Ok(Vec::new()))
        } else {
            match &self.page_error {
                Some(e) => NotesStep::Done(Err(e.clone())),
                None => NotesStep::Done(Err(String::new())),
            }
        }
    }
}

/// Takes the thread read with all its turns: the notes come newest first; a
/// thread without a first user message yet has none.
pub fn notes_after_full_read(read: Result<Vec<Vec<HistoryItem>>, RequestFailure>) -> (res: Result<
    Vec<NoteToSelf>,
    String,
>)
    ensures
        match read {
            Ok(turns) => res matches Ok(v) && notes_view(v@) == notes_of_turns(
                turns@.map_values(|t: Vec<HistoryItem>| t@),
            ),
            Err(f) => if f.server matches Some((_, m)) && m@.len() >= "includeTurns is unavailable before first user message"@.len()
                && m@.subrange(
                m@.len() - "includeTurns is unavailable before first user message"@.len(),
                m@.len() as int,
            ) == "includeTurns is unavailable before first user message"@ {
                res matches Ok(v) && v@.len() == 0
            } else {
                res matches Err(e) && e@ == f.error@
            },
        },
{
    match read {
        Ok(turns) => Ok(notes_from_turns(&turns)),
        Err(f) => {
            let before_first = match &f.server {
                Some((_, m)) => ends_with_chars(
                    &chars_of(m.as_str()),
                    "includeTurns is unavailable before first user message",
                ),
                None => false,
            };
            if before_first {
                Ok(Vec::new())
            } else {
                Err(f.error)
            }
        },
    }
}

} // verus!
