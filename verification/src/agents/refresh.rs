//! The decisions of a metadata read: which recent threads seed discovery,
//! how a listing pages, what a failed read means, and which parents are read
//! next.

use crate::agents::table::{
    add_key, find_slot, has_key, key_add, key_in, keys_view, put_slot, slot_get, slot_has,
    slot_put, slots_view, Slot,
};
use crate::agents::thread::{parent_id, preview_text, spec_parent_id, spec_preview_text, Thread, ThreadStatus};
use crate::rollout::usage::{parse_uuid, uuid_text};
use crate::proxy::upstream::{contains_chars, contains_seq};
use crate::text::{chars_le, chars_of, concat2, str_is, str_le};
use vstd::prelude::*;

verus! {

/// How many recent threads discovery keeps, and a listing page holds.
pub const RECENT_LIMIT: usize = 20;

/// When a thread was last active: its recency, else its last update.
pub open spec fn recency_key(t: Thread) -> i64 {
    match t.recency_at {
        Some(r) => r,
        None => t.updated_at,
    }
}

/// `a` is listed strictly before `b`: more recent, then the greater id.
pub open spec fn more_recent(a: Thread, b: Thread) -> bool {
    recency_key(a) > recency_key(b) || (recency_key(a) == recency_key(b) && chars_le(b.id@, a.id@)
        && a.id@ != b.id@)
}

/// `s` with `x` placed before the first thread it is strictly before.
pub open spec fn insert_recent(x: Thread, s: Seq<Thread>) -> Seq<Thread>
    decreases s.len(),
{
    if s.len() == 0 {
        seq![x]
    } else if more_recent(x, s[0]) {
        seq![x] + s
    } else {
        seq![s[0]] + insert_recent(x, s.drop_first())
    }
}

/// `s` sorted most recent first, keeping the order of ties.
pub open spec fn sort_recent(s: Seq<Thread>) -> Seq<Thread>
    decreases s.len(),
{
    if s.len() == 0 {
        Seq::empty()
    } else {
        insert_recent(s.last(), sort_recent(s.drop_last()))
    }
}

/// The recent threads discovery seeds: the most recent ones, at most the limit.
pub open spec fn spec_recent_seed(s: Seq<Thread>) -> Seq<Thread> {
    let sorted = sort_recent(s);
    if sorted.len() <= RECENT_LIMIT {
        sorted
    } else {
        sorted.take(RECENT_LIMIT as int)
    }
}

proof fn lemma_insert_recent_at(x: Thread, s: Seq<Thread>, k: int)
    requires
        0 <= k <= s.len(),
        forall|j: int| 0 <= j < k ==> !more_recent(x, #[trigger] s[j]),
        k == s.len() || more_recent(x, s[k]),
    ensures
        insert_recent(x, s) == s.insert(k, x),
    decreases s.len(),
{
    if s.len() == 0 {
        assert(s.insert(0, x) =~= seq![x]);
    } else if k == 0 {
        assert(s.insert(0, x) =~= seq![x] + s);
    } else {
        let t = s.drop_first();
        assert forall|j: int| 0 <= j < k - 1 implies !more_recent(x, #[trigger] t[j]) by {
            assert(t[j] == s[j + 1]);
        }
        lemma_insert_recent_at(x, t, k - 1);
        assert(seq![s[0]] + t.insert(k - 1, x) =~= s.insert(k, x));
    }
}

fn is_more_recent(a: &Thread, b: &Thread) -> (res: bool)
    ensures
        res == more_recent(*a, *b),
{
    let ka = match a.recency_at {
        Some(r) => r,
        None => a.updated_at,
    };
    let kb = match b.recency_at {
        Some(r) => r,
        None => b.updated_at,
    };
    ka > kb || (ka == kb && str_le(b.id.as_str(), a.id.as_str()) && !str_is(
        a.id.as_str(),
        b.id.as_str(),
    ))
}

/// The threads discovery seeds from the recent listings.
pub fn recent_seed(recent: Vec<Thread>) -> (res: Vec<Thread>)
    ensures
        res@ == spec_recent_seed(recent@),
        res@.len() == if recent@.len() <= 20 {
            recent@.len()
        } else {
            20
        },
        newest_first(res@),
        forall|j: int| 0 <= j < res@.len() ==> occurs_in(#[trigger] res@[j], recent@),
        forall|i: int| 0 <= i < recent@.len() ==> occurs_in(#[trigger] recent@[i], res@) || forall|k: int|
            0 <= k < res@.len() ==> recency_key(recent@[i]) <= recency_key(#[trigger] res@[k]),
{
    proof {
        lemma_recent_seed_keeps_newest(recent@);
    }
    let n = recent.len();
    let mut sorted: Vec<Thread> = Vec::new();
    let mut i: usize = 0;
    while i < n
        invariant
            n == recent@.len(),
            i <= n,
            sorted@ == sort_recent(recent@.take(i as int)),
        decreases n - i,
    {
        let x = recent[i].duplicate();
        let m = sorted.len();
        let mut k: usize = 0;
        while k < m && !is_more_recent(&x, &sorted[k])
            invariant
                m == sorted@.len(),
                k <= m,
                forall|j: int| 0 <= j < k ==> !more_recent(x, #[trigger] sorted@[j]),
            decreases m - k,
        {
            k += 1;
        }
        proof {
            lemma_insert_recent_at(x, sorted@, k as int);
            assert(recent@.take(i + 1).drop_last() =~= recent@.take(i as int));
            assert(recent@.take(i + 1).last() == x);
        }
        sorted.insert(k, x);
        i += 1;
    }
    assert(recent@.take(n as int) =~= recent@);
    if sorted.len() > RECENT_LIMIT {
        sorted.truncate(RECENT_LIMIT);
    }
    sorted
}

/// Each thread is at least as recent as every thread after it.
pub open spec fn newest_first(s: Seq<Thread>) -> bool {
    forall|i: int, j: int| 0 <= i < j < s.len() ==> recency_key(#[trigger] s[i]) >= recency_key(#[trigger] s[j])
}

/// `x` is one of the threads of `s`.
pub open spec fn occurs_in(x: Thread, s: Seq<Thread>) -> bool {
    exists|i: int| 0 <= i < s.len() && s[i] == x
}

proof fn lemma_occurs_at(x: Thread, s: Seq<Thread>, i: int)
    requires
        0 <= i < s.len(),
        s[i] == x,
    ensures
        occurs_in(x, s),
{
}

proof fn lemma_insert_recent_props(x: Thread, t: Seq<Thread>)
    ensures
        insert_recent(x, t).len() == t.len() + 1,
        forall|j: int| 0 <= j < insert_recent(x, t).len() ==> #[trigger] insert_recent(x, t)[j] == x
            || occurs_in(insert_recent(x, t)[j], t),
        occurs_in(x, insert_recent(x, t)),
        forall|i: int| 0 <= i < t.len() ==> occurs_in(#[trigger] t[i], insert_recent(x, t)),
        newest_first(t) ==> newest_first(insert_recent(x, t)),
    decreases t.len(),
{
    let r = insert_recent(x, t);
    if t.len() == 0 {
        lemma_occurs_at(x, r, 0);
    } else if more_recent(x, t[0]) {
        lemma_occurs_at(x, r, 0);
        assert forall|j: int| 0 <= j < r.len() implies #[trigger] r[j] == x || occurs_in(r[j], t) by {
            if j > 0 {
                lemma_occurs_at(r[j], t, j - 1);
            }
        }
        assert forall|i: int| 0 <= i < t.len() implies occurs_in(#[trigger] t[i], r) by {
            lemma_occurs_at(t[i], r, i + 1);
        }
        if newest_first(t) {
            assert forall|i: int, j: int| 0 <= i < j < r.len() implies recency_key(#[trigger] r[i])
                >= recency_key(#[trigger] r[j]) by {
                if i == 0 {
                    assert(r[j] == t[j - 1]);
                    if j > 1 {
                        assert(recency_key(t[0]) >= recency_key(t[j - 1]));
                    }
                } else {
                    assert(r[i] == t[i - 1] && r[j] == t[j - 1]);
                }
            }
        }
    } else {
        let rest = t.drop_first();
        lemma_insert_recent_props(x, rest);
        let ir = insert_recent(x, rest);
        assert(r == seq![t[0]] + ir);
        assert forall|j: int| 0 <= j < r.len() implies #[trigger] r[j] == x || occurs_in(r[j], t) by {
            if j == 0 {
                lemma_occurs_at(r[j], t, 0);
            } else {
                assert(r[j] == ir[j - 1]);
                if r[j] != x {
                    assert(occurs_in(ir[j - 1], rest));
                    let q = choose|q: int| 0 <= q < rest.len() && rest[q] == ir[j - 1];
                    lemma_occurs_at(r[j], t, q + 1);
                }
            }
        }
        let w = choose|j: int| 0 <= j < ir.len() && ir[j] == x;
        lemma_occurs_at(x, r, w + 1);
        assert forall|i: int| 0 <= i < t.len() implies occurs_in(#[trigger] t[i], r) by {
            if i == 0 {
                lemma_occurs_at(t[i], r, 0);
            } else {
                assert(rest[i - 1] == t[i]);
                assert(occurs_in(rest[i - 1], ir));
                let q = choose|q: int| 0 <= q < ir.len() && ir[q] == rest[i - 1];
                lemma_occurs_at(t[i], r, q + 1);
            }
        }
        if newest_first(t) {
            assert forall|i: int, j: int| 0 <= i < j < rest.len() implies recency_key(#[trigger] rest[i])
                >= recency_key(#[trigger] rest[j]) by {
                assert(rest[i] == t[i + 1] && rest[j] == t[j + 1]);
            }
            assert forall|i: int, j: int| 0 <= i < j < r.len() implies recency_key(#[trigger] r[i])
                >= recency_key(#[trigger] r[j]) by {
                if i == 0 {
                    assert(r[0] == t[0]);
                    assert(r[j] == ir[j - 1]);
                    if ir[j - 1] == x {
                        assert(!more_recent(x, t[0]));
                    } else {
                        assert(occurs_in(ir[j - 1], rest));
                        let q = choose|q: int| 0 <= q < rest.len() && rest[q] == ir[j - 1];
                        assert(rest[q] == t[q + 1]);
                        assert(recency_key(t[0]) >= recency_key(t[q + 1]));
                    }
                } else {
                    assert(r[i] == ir[i - 1] && r[j] == ir[j - 1]);
                }
            }
        }
    }
}

proof fn lemma_sort_recent_props(s: Seq<Thread>)
    ensures
        sort_recent(s).len() == s.len(),
        newest_first(sort_recent(s)),
        forall|j: int| 0 <= j < sort_recent(s).len() ==> occurs_in(#[trigger] sort_recent(s)[j], s),
        forall|i: int| 0 <= i < s.len() ==> occurs_in(#[trigger] s[i], sort_recent(s)),
    decreases s.len(),
{
    if s.len() > 0 {
        let rest = s.drop_last();
        lemma_sort_recent_props(rest);
        let sr = sort_recent(rest);
        let x = s.last();
        lemma_insert_recent_props(x, sr);
        let r = sort_recent(s);
        assert(r == insert_recent(x, sr));
        assert forall|j: int| 0 <= j < r.len() implies occurs_in(#[trigger] r[j], s) by {
            if r[j] == x {
                lemma_occurs_at(r[j], s, s.len() - 1);
            } else {
                assert(occurs_in(r[j], sr));
                let q = choose|q: int| 0 <= q < sr.len() && sr[q] == r[j];
                assert(occurs_in(sr[q], rest));
                let i = choose|i: int| 0 <= i < rest.len() && rest[i] == sr[q];
                lemma_occurs_at(r[j], s, i);
            }
        }
        assert forall|i: int| 0 <= i < s.len() implies occurs_in(#[trigger] s[i], r) by {
            if i == s.len() - 1 {
                assert(s[i] == x);
            } else {
                assert(rest[i] == s[i]);
                assert(occurs_in(rest[i], sr));
                let q = choose|q: int| 0 <= q < sr.len() && sr[q] == rest[i];
                assert(occurs_in(sr[q], r));
            }
        }
    }
}

/// Discovery keeps the most recent threads, newest first: as many as there
/// are, up to the limit; each kept thread comes from the input; and a thread
/// that is not kept is no more recent than any kept one.
pub proof fn lemma_recent_seed_keeps_newest(s: Seq<Thread>)
    ensures
        spec_recent_seed(s).len() == if s.len() <= 20 {
            s.len()
        } else {
            20
        },
        newest_first(spec_recent_seed(s)),
        forall|j: int| 0 <= j < spec_recent_seed(s).len() ==> occurs_in(#[trigger] spec_recent_seed(s)[j], s),
        forall|i: int| 0 <= i < s.len() ==> occurs_in(#[trigger] s[i], spec_recent_seed(s)) || forall|k: int|
            0 <= k < spec_recent_seed(s).len() ==> recency_key(s[i]) <= recency_key(#[trigger] spec_recent_seed(s)[k]),
{
    lemma_sort_recent_props(s);
    let sorted = sort_recent(s);
    let r = spec_recent_seed(s);
    assert forall|j: int| 0 <= j < r.len() implies #[trigger] r[j] == sorted[j] by {}
    assert forall|i: int| 0 <= i < s.len() implies occurs_in(#[trigger] s[i], r) || forall|k: int|
        0 <= k < r.len() ==> recency_key(s[i]) <= recency_key(#[trigger] r[k]) by {
        assert(occurs_in(s[i], sorted));
        let p = choose|j: int| 0 <= j < sorted.len() && sorted[j] == s[i];
        if p < r.len() {
            lemma_occurs_at(s[i], r, p);
        } else {
            assert forall|k: int| 0 <= k < r.len() implies recency_key(s[i]) <= recency_key(#[trigger] r[k]) by {
                assert(r[k] == sorted[k]);
                assert(recency_key(sorted[k]) >= recency_key(sorted[p]));
            }
        }
    }
    assert forall|j: int| 0 <= j < r.len() implies occurs_in(#[trigger] r[j], s) by {
        assert(occurs_in(sorted[j], s));
    }
    assert forall|i: int, j: int| 0 <= i < j < r.len() implies recency_key(#[trigger] r[i]) >= recency_key(#[trigger] r[j]) by {
        assert(r[i] == sorted[i] && r[j] == sorted[j]);
    }
}

/// Seeds thread `id` with recent metadata, unless metadata is already held.
pub open spec fn seed_one(s: Seq<(Seq<char>, Option<Thread>)>, id: Seq<char>, t: Thread) -> Seq<
    (Seq<char>, Option<Thread>),
> {
    match slot_get(s, id) {
        Some(Some(_)) => s,
        _ => slot_put(s, id, Some(t)),
    }
}

/// Lists thread `id`, with no metadata when none is held.
pub open spec fn list_one(s: Seq<(Seq<char>, Option<Thread>)>, id: Seq<char>) -> Seq<
    (Seq<char>, Option<Thread>),
> {
    if slot_has(s, id) {
        s
    } else {
        slot_put(s, id, None)
    }
}

/// The threads to read after discovery: each recent thread whose id parses,
/// then each loaded id that parses.
pub open spec fn seed_recent(s: Seq<(Seq<char>, Option<Thread>)>, recent: Seq<Thread>) -> Seq<
    (Seq<char>, Option<Thread>),
>
    decreases recent.len(),
{
    if recent.len() == 0 {
        s
    } else {
        let rest = seed_recent(s, recent.drop_last());
        match uuid_text(recent.last().id@) {
            Some(id) => seed_one(rest, id, recent.last()),
            None => rest,
        }
    }
}

pub open spec fn seed_loaded(s: Seq<(Seq<char>, Option<Thread>)>, loaded: Seq<Seq<char>>) -> Seq<
    (Seq<char>, Option<Thread>),
>
    decreases loaded.len(),
{
    if loaded.len() == 0 {
        s
    } else {
        let rest = seed_loaded(s, loaded.drop_last());
        match uuid_text(loaded.last()) {
            Some(id) => list_one(rest, id),
            None => rest,
        }
    }
}

/// Adds what discovery found to the threads to read.
pub fn seed_discovered(threads: &mut Vec<Slot<Option<Thread>>>, recent: &Vec<Thread>, loaded: &Vec<String>)
    ensures
        slots_view(final(threads)@) == seed_loaded(
            seed_recent(slots_view(old(threads)@), recent@),
            keys_view(loaded@),
        ),
{
    let ghost s0 = slots_view(threads@);
    let n = recent.len();
    let mut i: usize = 0;
    while i < n
        invariant
            n == recent@.len(),
            i <= n,
            slots_view(threads@) == seed_recent(s0, recent@.take(i as int)),
        decreases n - i,
    {
        proof {
            assert(recent@.take(i + 1).drop_last() =~= recent@.take(i as int));
            assert(recent@.take(i + 1).last() == recent@[i as int]);
        }
        match parse_uuid(recent[i].id.as_str()) {
            Some(id) => {
                let p = find_slot(threads, id.as_str());
                let held = p < threads.len() && threads[p].value.is_some();
                proof {
                    crate::agents::table::lemma_slot_pos(slots_view(threads@), id@, 0);
                }
                if !held {
                    put_slot(threads, id, Some(recent[i].duplicate()));
                }
            },
            None => {},
        }
        i += 1;
    }
    assert(recent@.take(n as int) =~= recent@);
    let ghost s1 = slots_view(threads@);
    let ghost lv = keys_view(loaded@);
    let n = loaded.len();
    let mut i: usize = 0;
    while i < n
        invariant
            n == loaded@.len(),
            lv == keys_view(loaded@),
            i <= n,
            slots_view(threads@) == seed_loaded(s1, lv.take(i as int)),
        decreases n - i,
    {
        proof {
            assert(lv.take(i + 1).drop_last() =~= lv.take(i as int));
            assert(lv.take(i + 1).last() == lv[i as int]);
        }
        match parse_uuid(loaded[i].as_str()) {
            Some(id) => {
                if find_slot(threads, id.as_str()) >= threads.len() {
                    put_slot(threads, id, None);
                }
            },
            None => {},
        }
        i += 1;
    }
    assert(lv.take(n as int) =~= lv);
}

/// The error a server returned for a request, as far as reads look at it.
#[derive(Clone, Debug, PartialEq, Eq)]
pub struct ServerError {
    pub code: i64,
    pub message: String,
}

/// What a failed thread read means.
#[derive(Clone, Copy, Debug, PartialEq, Eq, Structural)]
pub enum ReadFailure {
    /// The thread is not loaded: keep what is known, marked not loaded.
    NotLoaded,
    /// The thread is gone.
    Removed,
    /// Anything else: keep what is known and report the error.
    Other,
}

/// The thread is not loaded when the server says so with the invalid-request code.
pub open spec fn is_not_loaded(id: Seq<char>, e: Option<ServerError>) -> bool {
    e matches Some(s) && s.code == -32600 && s.message@ == "thread not loaded: "@ + id
}

pub open spec fn spec_read_failure(id: Seq<char>, e: Option<ServerError>) -> ReadFailure {
    if is_not_loaded(id, e) {
        ReadFailure::NotLoaded
    } else if e matches Some(s) && (s.message@ == "no rollout found for thread id "@ + id
        || s.message@ == "thread not found: "@ + id) {
        ReadFailure::Removed
    } else {
        ReadFailure::Other
    }
}

fn not_loaded(id: &str, e: Option<&ServerError>) -> (res: bool)
    ensures
        res == is_not_loaded(
            id@,
            match e {
                Some(s) => Some(*s),
                None => None,
            },
        ),
{
    match e {
        Some(s) => s.code == -32600 && str_is(
            s.message.as_str(),
            concat2("thread not loaded: ", id).as_str(),
        ),
        None => false,
    }
}

/// What a failed read of thread `id` means; `e` is the server's error, if
/// the server answered.
pub fn read_failure(id: &str, e: Option<&ServerError>) -> (res: ReadFailure)
    ensures
        res == spec_read_failure(
            id@,
            match e {
                Some(s) => Some(*s),
                None => None,
            },
        ),
{
    if not_loaded(id, e) {
        return ReadFailure::NotLoaded;
    }
    match e {
        Some(s) => {
            if str_is(s.message.as_str(), concat2("no rollout found for thread id ", id).as_str())
                || str_is(s.message.as_str(), concat2("thread not found: ", id).as_str()) {
                ReadFailure::Removed
            } else {
                ReadFailure::Other
            }
        },
        None => ReadFailure::Other,
    }
}

/// What a thread read brought.
#[derive(Clone, Debug, PartialEq, Eq)]
pub struct ReadRecord {
    pub thread: Option<Thread>,
    pub last_message: Option<String>,
    pub removed: bool,
    pub error: Option<String>,
}

pub open spec fn with_status(t: Option<Thread>, status: ThreadStatus) -> Option<Thread> {
    match t {
        Some(t) => Some(Thread { status, ..t }),
        None => None,
    }
}

fn dup_thread(t: &Option<Thread>) -> (res: Option<Thread>)
    ensures
        res == *t,
{
    match t {
        Some(t) => Some(t.duplicate()),
        None => None,
    }
}

/// The record of a read of thread `id` that failed with `error`.
pub fn failed_read_record(id: &str, previous: Option<Thread>, server: Option<&ServerError>, error: String) -> (res:
    ReadRecord)
    ensures
        match spec_read_failure(
            id@,
            match server {
                Some(s) => Some(*s),
                None => None,
            },
        ) {
            ReadFailure::NotLoaded => res.thread == with_status(previous, ThreadStatus::NotLoaded)
                && res.last_message is None && !res.removed && res.error is None,
            ReadFailure::Removed => res.thread is None && res.last_message is None && res.removed
                && res.error is None,
            ReadFailure::Other => res.thread == previous && res.last_message is None && !res.removed
                && res.error == Some(error),
        },
{
    match read_failure(id, server) {
        ReadFailure::NotLoaded => {
            let thread = match previous {
                Some(mut t) => {
                    t.status = ThreadStatus::NotLoaded;
                    Some(t)
                },
                None => None,
            };
            ReadRecord { thread, last_message: None, removed: false, error: None }
        },
        ReadFailure::Removed => ReadRecord {
            thread: None,
            last_message: None,
            removed: true,
            error: None,
        },
        ReadFailure::Other => ReadRecord {
            thread: previous,
            last_message: None,
            removed: false,
            error: Some(error),
        },
    }
}

/// How the latest-turn read of a thread went.
#[derive(Clone, Debug, PartialEq, Eq)]
pub enum TurnsRead {
    /// The latest turn, if any: the preview its first user message gives,
    /// and the text of its last agent message.
    Latest { user_preview: Option<String>, last_agent_text: Option<String> },
    NoTurns,
    Failed { server: Option<ServerError>, error: String },
}

/// The turns read fails only because the thread has no user message yet.
pub open spec fn is_not_materialized(id: Seq<char>, e: Option<ServerError>) -> bool {
    e matches Some(s) && s.message@ == "thread "@ + id
        + " is not materialized yet; thread/turns/list is unavailable before first user message"@
}

/// The record of thread `id` read as `thread`, after its latest turn was
/// read: the turn's first user message becomes the preview and its last agent
/// message the last message; a thread unloaded meanwhile keeps its earlier
/// preview and is marked not loaded.
pub fn read_record(id: &str, thread: Thread, previous: Option<Thread>, turns: TurnsRead) -> (res: ReadRecord)
    ensures
        !res.removed,
        match turns {
            TurnsRead::Latest { user_preview, last_agent_text } => {
                &&& res.thread == Some(
                    match user_preview {
                        Some(p) => Thread { preview: p, ..thread },
                        None => thread,
                    },
                )
                &&& match last_agent_text {
                    Some(t) => res.last_message matches Some(m) && m@ == spec_preview_text(t@),
                    None => res.last_message is None,
                }
                &&& res.error is None
            },
            TurnsRead::NoTurns => res.thread == Some(thread) && res.last_message is None
                && res.error is None,
            TurnsRead::Failed { server, error } => if is_not_loaded(id@, server) {
                &&& res.thread == Some(
                    Thread {
                        status: ThreadStatus::NotLoaded,
                        preview: match previous {
                            Some(p) => p.preview,
                            None => thread.preview,
                        },
                        ..thread
                    },
                )
                &&& res.last_message is None
                &&& res.error is None
            } else if is_not_materialized(id@, server) {
                res.thread == Some(thread) && res.last_message is None && res.error is None
            } else {
                res.thread == Some(thread) && res.last_message is None && res.error == Some(error)
            },
        },
{
    let mut thread = thread;
    match turns {
        TurnsRead::Latest { user_preview, last_agent_text } => {
            match user_preview {
                Some(p) => {
                    thread.preview = p;
                },
                None => {},
            }
            let last_message = match last_agent_text {
                Some(t) => Some(preview_text(t.as_str())),
                None => None,
            };
            ReadRecord { thread: Some(thread), last_message, removed: false, error: None }
        },
        TurnsRead::NoTurns => ReadRecord {
            thread: Some(thread),
            last_message: None,
            removed: false,
            error: None,
        },
        TurnsRead::Failed { server, error } => {
            let ghost sv = server;
            if not_loaded(
                id,
                match &server {
                    Some(s) => Some(s),
                    None => None,
                },
            ) {
                match previous {
                    Some(p) => {
                        thread.preview = p.preview;
                    },
                    None => {},
                }
                thread.status = ThreadStatus::NotLoaded;
                return ReadRecord { thread: Some(thread), last_message: None, removed: false, error: None };
            }
            let materializing = match &server {
                Some(s) => {
                    let mut expected = concat2("thread ", id);
                    expected.append(
                        " is not materialized yet; thread/turns/list is unavailable before first user message",
                    );
                    str_is(s.message.as_str(), expected.as_str())
                },
                None => false,
            };
            if materializing {
                ReadRecord { thread: Some(thread), last_message: None, removed: false, error: None }
            } else {
                ReadRecord {
                    thread: Some(thread),
                    last_message: None,
                    removed: false,
                    error: Some(error),
                }
            }
        },
    }
}

/// The parent a read thread makes worth reading: a listed, non-ephemeral
/// thread's parent that is neither known, gone nor already queued.
pub open spec fn spec_parent_to_read(
    thread: Option<Thread>,
    known: Seq<Seq<char>>,
    removed: Seq<Seq<char>>,
    seen: Seq<Seq<char>>,
) -> Result<Option<Seq<char>>, Seq<char>> {
    match thread {
        Some(t) => if t.ephemeral {
            Ok(None)
        } else {
            match spec_parent_id(t) {
                Some(raw) => match uuid_text(raw) {
                    Some(p) => if !key_in(known, p) && !key_in(removed, p) && !key_in(seen, p) {
                        Ok(Some(p))
                    } else {
                        Ok(None)
                    },
                    None => Err(raw),
                },
                None => Ok(None),
            }
        },
        None => Ok(None),
    }
}

/// Decides whether to read a thread's parent next, and marks it seen. A
/// parent id that does not parse fails the read; its text is given back.
pub fn parent_to_read(
    thread: Option<&Thread>,
    known: &Vec<String>,
    removed: &Vec<String>,
    seen: &mut Vec<String>,
) -> (res: Result<Option<String>, String>)
    ensures
        match spec_parent_to_read(
            match thread {
                Some(t) => Some(*t),
                None => None,
            },
            keys_view(known@),
            keys_view(removed@),
            keys_view(old(seen)@),
        ) {
            Ok(Some(p)) => res matches Ok(Some(q)) && q@ == p && keys_view(final(seen)@) == key_add(
                keys_view(old(seen)@),
                p,
            ),
            Ok(None) => res matches Ok(None) && final(seen)@ == old(seen)@,
            Err(raw) => res matches Err(r) && r@ == raw && final(seen)@ == old(seen)@,
        },
{
    let t = match thread {
        Some(t) => t,
        None => return Ok(None),
    };
    if t.ephemeral {
        return Ok(None);
    }
    let raw = match parent_id(t) {
        Some(raw) => raw,
        None => return Ok(None),
    };
    let p = match parse_uuid(raw.as_str()) {
        Some(p) => p,
        None => return Err(raw),
    };
    if !has_key(known, p.as_str()) && !has_key(removed, p.as_str()) && !has_key(seen, p.as_str()) {
        add_key(seen, p.clone());
        Ok(Some(p))
    } else {
        Ok(None)
    }
}


/// Which threads a listing asks for.
#[derive(Clone, Copy, Debug, PartialEq, Eq, Structural)]
pub enum Listing {
    /// Recent top-level threads, at most the limit.
    Recent,
    /// Every archived thread.
    Archived,
}

/// The order a listing asks for.
#[derive(Clone, Copy, Debug, PartialEq, Eq, Structural)]
pub enum SortKey {
    RecencyAt,
    UpdatedAt,
}

/// A listing page, or why it failed.
#[derive(Clone, Debug, PartialEq, Eq)]
pub enum PageResult {
    Page { threads: Vec<Thread>, next_cursor: Option<String> },
    Failed { server: Option<ServerError>, error: String },
}

/// The state of a listing that pages through the server's threads.
#[derive(Clone, Debug, PartialEq, Eq)]
pub struct ListPaging {
    pub listing: Listing,
    pub sort_key: SortKey,
    pub data: Vec<Thread>,
    pub seen_cursors: Vec<String>,
}

pub struct ListPagingV {
    pub listing: Listing,
    pub sort_key: SortKey,
    pub data: Seq<Thread>,
    pub seen_cursors: Seq<Seq<char>>,
}

impl View for ListPaging {
    type V = ListPagingV;

    open spec fn view(&self) -> ListPagingV {
        ListPagingV {
            listing: self.listing,
            sort_key: self.sort_key,
            data: self.data@,
            seen_cursors: keys_view(self.seen_cursors@),
        }
    }
}

/// What a listing does next.
#[derive(Debug, PartialEq, Eq)]
pub enum PageStep {
    /// Request the page at `cursor` in the listing's order.
    Fetch { cursor: Option<String> },
    Done(Result<Vec<Thread>, String>),
}

pub enum PageStepV {
    Fetch { cursor: Option<Seq<char>> },
    Done(Result<Seq<Thread>, Seq<char>>),
}

pub open spec fn page_step_view(s: PageStep) -> PageStepV {
    match s {
        PageStep::Fetch { cursor } => PageStepV::Fetch {
            cursor: match cursor {
                Some(c) => Some(c@),
                None => None,
            },
        },
        PageStep::Done(Ok(d)) => PageStepV::Done(Ok(d@)),
        PageStep::Done(Err(e)) => PageStepV::Done(Err(e@)),
    }
}

/// The threads of a page a listing keeps: every archived thread; among
/// recent ones, those neither ephemeral nor sub-agents.
pub open spec fn kept(listing: Listing, s: Seq<Thread>) -> Seq<Thread>
    decreases s.len(),
{
    if s.len() == 0 {
        s
    } else {
        let rest = kept(listing, s.drop_last());
        let t = s.last();
        if listing == Listing::Archived || (!t.ephemeral && spec_parent_id(t) is None) {
            rest.push(t)
        } else {
            rest
        }
    }
}

/// A server that cannot order by recency says so naming the field.
pub open spec fn rejects_recency_order(e: Option<ServerError>) -> bool {
    e matches Some(s) && (s.code == -32600 || s.code == -32602) && contains_seq(
        s.message@,
        "recency_at"@,
    )
}

/// One page of a listing. A server that cannot order by recency gets the
/// listing again from the start by update time; a recent listing stops at
/// the limit; a repeated cursor fails the listing.
pub open spec fn spec_list_page(s: ListPagingV, page: PageResult) -> (ListPagingV, PageStepV) {
    match page {
        PageResult::Failed { server, error } => if s.sort_key == SortKey::RecencyAt
            && rejects_recency_order(server) {
            (
                ListPagingV {
                    sort_key: SortKey::UpdatedAt,
                    data: Seq::empty(),
                    seen_cursors: Seq::empty(),
                    ..s
                },
                PageStepV::Fetch { cursor: None },
            )
        } else {
            (s, PageStepV::Done(Err(error@)))
        },
        PageResult::Page { threads, next_cursor } => {
            let data = s.data + kept(s.listing, threads@);
            if s.listing == Listing::Recent && data.len() >= RECENT_LIMIT {
                let d = data.take(RECENT_LIMIT as int);
                (ListPagingV { data: d, ..s }, PageStepV::Done(Ok(d)))
            } else {
                match next_cursor {
                    None => (ListPagingV { data, ..s }, PageStepV::Done(Ok(data))),
                    Some(c) => if key_in(s.seen_cursors, c@) {
                        (
                            ListPagingV { data, ..s },
                            PageStepV::Done(Err("server repeated a thread-list cursor"@)),
                        )
                    } else {
                        (
                            ListPagingV { data, seen_cursors: key_add(s.seen_cursors, c@), ..s },
                            PageStepV::Fetch { cursor: Some(c@) },
                        )
                    },
                }
            }
        },
    }
}

impl ListPaging {
    pub fn new(listing: Listing) -> (res: ListPaging)
        ensures
            res@ == (ListPagingV {
                listing,
                sort_key: SortKey::RecencyAt,
                data: Seq::empty(),
                seen_cursors: Seq::empty(),
            }),
    {
        let res = ListPaging {
            listing,
            sort_key: SortKey::RecencyAt,
            data: Vec::new(),
            seen_cursors: Vec::new(),
        };
        assert(res@.seen_cursors =~= Seq::<Seq<char>>::empty());
        res
    }

    /// Takes the result of the page last requested.
    pub fn on_page(&mut self, page: PageResult) -> (res: PageStep)
        ensures
            (final(self)@, page_step_view(res)) == spec_list_page(old(self)@, page),
    {
        let ghost pg = page;
        match page {
            PageResult::Failed { server, error } => {
                let rejects = match &server {
                    Some(s) => (s.code == -32600 || s.code == -32602) && contains_chars(
                        &chars_of(s.message.as_str()),
                        &chars_of("recency_at"),
                    ),
                    None => false,
                };
                if self.sort_key == SortKey::RecencyAt && rejects {
                    self.sort_key = SortKey::UpdatedAt;
                    self.data = Vec::new();
                    self.seen_cursors = Vec::new();
                    assert(self@.seen_cursors =~= Seq::<Seq<char>>::empty());
                    PageStep::Fetch { cursor: None }
                } else {
                    PageStep::Done(Err(error))
                }
            },
            PageResult::Page { threads, next_cursor } => {
                let ghost before = self.data@;
                let n = threads.len();
                let mut i: usize = 0;
                while i < n
                    invariant
                        n == threads@.len(),
                        i <= n,
                        self.listing == old(self).listing,
                        self.sort_key == old(self).sort_key,
                        self.seen_cursors == old(self).seen_cursors,
                        before == old(self).data@,
                        self.data@ == before + kept(self.listing, threads@.take(i as int)),
                    decreases n - i,
                {
                    proof {
                        assert(threads@.take(i + 1).drop_last() =~= threads@.take(i as int));
                        assert(threads@.take(i + 1).last() == threads@[i as int]);
                    }
                    let t = &threads[i];
                    if self.listing == Listing::Archived || (!t.ephemeral && parent_id(t).is_none()) {
                        let ghost d = self.data@;
                        self.data.push(t.duplicate());
                        assert(self.data@ =~= before + kept(self.listing, threads@.take(i + 1)));
                    }
                    i += 1;
                }
                assert(threads@.take(n as int) =~= threads@);
                if self.listing == Listing::Recent && self.data.len() >= RECENT_LIMIT {
                    self.data.truncate(RECENT_LIMIT);
                    let mut out: Vec<Thread> = Vec::new();
                    let m = self.data.len();
                    let mut j: usize = 0;
                    while j < m
                        invariant
                            m == self.data@.len(),
                            j <= m,
                            out@ == self.data@.take(j as int),
                        decreases m - j,
                    {
                        out.push(self.data[j].duplicate());
                        assert(out@ =~= self.data@.take(j + 1));
                        j += 1;
                    }
                    assert(out@ =~= self.data@);
                    return PageStep::Done(Ok(out));
                }
                match next_cursor {
                    None => {
                        let mut out: Vec<Thread> = Vec::new();
                        let m = self.data.len();
                        let mut j: usize = 0;
                        while j < m
                            invariant
                                m == self.data@.len(),
                                j <= m,
                                out@ == self.data@.take(j as int),
                            decreases m - j,
                        {
                            out.push(self.data[j].duplicate());
                            assert(out@ =~= self.data@.take(j + 1));
                            j += 1;
                        }
                        assert(out@ =~= self.data@);
                        PageStep::Done(Ok(out))
                    },
                    Some(c) => {
                        if has_key(&self.seen_cursors, c.as_str()) {
                            PageStep::Done(Err(String::from_str("server repeated a thread-list cursor")))
                        } else {
                            add_key(&mut self.seen_cursors, c.clone());
                            PageStep::Fetch { cursor: Some(c) }
                        }
                    },
                }
            },
        }
    }
}

/// A page of loaded thread ids, or why it failed.
#[derive(Clone, Debug, PartialEq, Eq)]
pub enum LoadedPage {
    Page { ids: Vec<String>, next_cursor: Option<String> },
    Failed { error: String },
}

/// One page of the loaded thread ids: they are collected until the last
/// page; a repeated cursor fails the listing.
pub open spec fn spec_loaded_page(
    ids: Seq<Seq<char>>,
    seen: Seq<Seq<char>>,
    page: LoadedPage,
) -> (Seq<Seq<char>>, Seq<Seq<char>>, PageStepV) {
    match page {
        LoadedPage::Failed { error } => (ids, seen, PageStepV::Done(Err(error@))),
        LoadedPage::Page { ids: more, next_cursor } => {
            let all = ids + keys_view(more@);
            match next_cursor {
                None => (all, seen, PageStepV::Fetch { cursor: None }),
                Some(c) => if key_in(seen, c@) {
                    (all, seen, PageStepV::Done(Err("server repeated a loaded-thread cursor"@)))
                } else {
                    (all, key_add(seen, c@), PageStepV::Fetch { cursor: Some(c@) })
                },
            }
        },
    }
}

/// The state of the loaded-thread listing.
#[derive(Clone, Debug, PartialEq, Eq)]
pub struct LoadedPaging {
    pub ids: Vec<String>,
    pub seen_cursors: Vec<String>,
}

/// What the loaded-thread listing does next: fetch the page at a cursor,
/// stop with all ids, or fail.
#[derive(Clone, Debug, PartialEq, Eq)]
pub enum LoadedStep {
    Fetch { cursor: String },
    Finished,
    Failed(String),
}

impl LoadedPaging {
    pub fn new() -> (res: LoadedPaging)
        ensures
            res.ids@.len() == 0,
            res.seen_cursors@.len() == 0,
    {
        LoadedPaging { ids: Vec::new(), seen_cursors: Vec::new() }
    }

    /// Takes the result of the page last requested.
    pub fn on_page(&mut self, page: LoadedPage) -> (res: LoadedStep)
        ensures
            keys_view(final(self).ids@) == spec_loaded_page(
                keys_view(old(self).ids@),
                keys_view(old(self).seen_cursors@),
                page,
            ).0,
            keys_view(final(self).seen_cursors@) == spec_loaded_page(
                keys_view(old(self).ids@),
                keys_view(old(self).seen_cursors@),
                page,
            ).1,
            match spec_loaded_page(
                keys_view(old(self).ids@),
                keys_view(old(self).seen_cursors@),
                page,
            ).2 {
                PageStepV::Fetch { cursor: None } => res is Finished,
                PageStepV::Fetch { cursor: Some(c) } => res matches LoadedStep::Fetch { cursor }
                    && cursor@ == c,
                PageStepV::Done(Err(e)) => res matches LoadedStep::Failed(m) && m@ == e,
                PageStepV::Done(Ok(_)) => false,
            },
    {
        match page {
            LoadedPage::Failed { error } => LoadedStep::Failed(error),
            LoadedPage::Page { ids, next_cursor } => {
                let ghost before = keys_view(self.ids@);
                let n = ids.len();
                let mut i: usize = 0;
                while i < n
                    invariant
                        n == ids@.len(),
                        i <= n,
                        self.seen_cursors == old(self).seen_cursors,
                        before == keys_view(old(self).ids@),
                        keys_view(self.ids@) == before + keys_view(ids@).take(i as int),
                    decreases n - i,
                {
                    let ghost prev = keys_view(self.ids@);
                    self.ids.push(ids[i].clone());
                    assert(keys_view(self.ids@) =~= prev.push(ids@[i as int]@));
                    assert(keys_view(ids@).take(i + 1) =~= keys_view(ids@).take(i as int).push(ids@[i as int]@));
                    assert(keys_view(self.ids@) =~= before + keys_view(ids@).take(i + 1));
                    i += 1;
                }
                assert(keys_view(ids@).take(n as int) =~= keys_view(ids@));
                match next_cursor {
                    None => LoadedStep::Finished,
                    Some(c) => {
                        if has_key(&self.seen_cursors, c.as_str()) {
                            LoadedStep::Failed(String::from_str("server repeated a loaded-thread cursor"))
                        } else {
                            add_key(&mut self.seen_cursors, c.clone());
                            LoadedStep::Fetch { cursor: c }
                        }
                    },
                }
            },
        }
    }
}

} // verus!
