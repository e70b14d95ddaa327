//! A conversation thread as the agents views see it, and the list semantics
//! shared by the dashboard and the JSON snapshots.

use crate::text::{chars_of, is_unicode_whitespace, is_whitespace, opt_string_view, push_char, trim, trim_chars};
use vstd::prelude::*;

verus! {

/// The run state of a thread. An active thread may be waiting on an
/// approval, on user input, or on both.
#[derive(Clone, Copy, Debug, PartialEq, Eq, Structural)]
pub enum ThreadStatus {
    NotLoaded,
    Idle,
    SystemError,
    Active { waiting_on_approval: bool, waiting_on_user_input: bool },
}

/// A conversation thread.
#[derive(Clone, Debug, PartialEq, Eq)]
pub struct Thread {
    pub id: String,
    pub name: Option<String>,
    pub preview: String,
    pub ephemeral: bool,
    pub status: ThreadStatus,
    pub cwd: String,
    pub model_provider: String,
    /// The parent recorded on the thread itself.
    pub parent_thread_id: Option<String>,
    /// The parent named by a sub-agent spawn source, if the thread has one.
    pub spawn_parent_id: Option<String>,
    pub created_at: i64,
    pub updated_at: i64,
    pub recency_at: Option<i64>,
    /// The thread's git information, as JSON text.
    pub git_info_json: Option<String>,
}

pub(crate) fn clone_opt_string(s: &Option<String>) -> (res: Option<String>)
    ensures
        res == *s,
{
    match s {
        Some(v) => Some(v.clone()),
        None => None,
    }
}

impl Thread {
    /// A copy of the thread.
    pub fn duplicate(&self) -> (res: Thread)
        ensures
            res == *self,
    {
        Thread {
            id: self.id.clone(),
            name: clone_opt_string(&self.name),
            preview: self.preview.clone(),
            ephemeral: self.ephemeral,
            status: self.status,
            cwd: self.cwd.clone(),
            model_provider: self.model_provider.clone(),
            parent_thread_id: clone_opt_string(&self.parent_thread_id),
            spawn_parent_id: clone_opt_string(&self.spawn_parent_id),
            created_at: self.created_at,
            updated_at: self.updated_at,
            recency_at: self.recency_at,
            git_info_json: clone_opt_string(&self.git_info_json),
        }
    }
}

/// The parent of a thread: its own parent field, else the spawning thread of
/// a sub-agent.
pub open spec fn spec_parent_id(t: Thread) -> Option<Seq<char>> {
    match t.parent_thread_id {
        Some(p) => Some(p@),
        None => opt_string_view(t.spawn_parent_id),
    }
}

pub fn parent_id(thread: &Thread) -> (res: Option<String>)
    ensures
        opt_string_view(res) == spec_parent_id(*thread),
{
    match &thread.parent_thread_id {
        Some(p) => Some(p.clone()),
        None => match &thread.spawn_parent_id {
            Some(p) => Some(p.clone()),
            None => None,
        },
    }
}

/// How many characters of text a preview keeps.
pub const PREVIEW_CHARS: usize = 512;

/// `char::is_control`: the C0 and C1 control characters.
pub open spec fn is_control(c: char) -> bool {
    (c as u32) <= 0x1F || (0x7F <= (c as u32) && (c as u32) <= 0x9F)
}

/// Preview text: whitespace becomes a space, control characters are dropped,
/// and at most the preview length is kept.
pub open spec fn preview_chars(s: Seq<char>) -> Seq<char>
    decreases s.len(),
{
    if s.len() == 0 {
        Seq::empty()
    } else {
        let c = if is_unicode_whitespace(s.last()) {
            ' '
        } else {
            s.last()
        };
        if is_control(c) {
            preview_chars(s.drop_last())
        } else {
            preview_chars(s.drop_last()).push(c)
        }
    }
}

pub open spec fn spec_preview_text(s: Seq<char>) -> Seq<char> {
    let p = preview_chars(s);
    if p.len() <= PREVIEW_CHARS {
        p
    } else {
        p.take(PREVIEW_CHARS as int)
    }
}

pub fn preview_text(text: &str) -> (res: String)
    ensures
        res@ == spec_preview_text(text@),
{
    let chars = chars_of(text);
    let n = chars.len();
    let mut out = String::new();
    let mut count: usize = 0;
    let mut i: usize = 0;
    while i < n && count < PREVIEW_CHARS
        invariant
            n == chars@.len(),
            chars@ == text@,
            i <= n,
            count <= PREVIEW_CHARS,
            out@ == preview_chars(chars@.take(i as int)),
            count == out@.len(),
        decreases n - i,
    {
        let c = chars[i];
        let mapped = if is_whitespace(c) {
            ' '
        } else {
            c
        };
        let u = mapped as u32;
        proof {
            assert(chars@.take(i + 1).drop_last() =~= chars@.take(i as int));
            assert(chars@.take(i + 1).last() == c);
        }
        if !(u <= 0x1F || (0x7F <= u && u <= 0x9F)) {
            push_char(&mut out, mapped);
            count += 1;
        }
        i += 1;
    }
    proof {
        lemma_preview_prefix(chars@, i as nat);
        if count < PREVIEW_CHARS {
            assert(chars@.take(n as int) =~= chars@);
        }
    }
    out
}

proof fn lemma_preview_prefix(s: Seq<char>, i: nat)
    requires
        i <= s.len(),
    ensures
        preview_chars(s.take(i as int)).len() <= preview_chars(s).len(),
        preview_chars(s) == preview_chars(s.take(i as int)) + preview_chars(s.skip(i as int)),
    decreases s.len() - i,
{
    if i == s.len() {
        assert(s.take(i as int) =~= s);
        assert(s.skip(i as int) =~= Seq::<char>::empty());
        assert(preview_chars(s) + Seq::<char>::empty() =~= preview_chars(s));
    } else {
        lemma_preview_prefix(s.drop_last(), i);
        assert(s.drop_last().take(i as int) =~= s.take(i as int));
        assert(s.skip(i as int).drop_last() =~= s.drop_last().skip(i as int));
        assert(s.skip(i as int).last() == s.last());
        let c = if is_unicode_whitespace(s.last()) {
            ' '
        } else {
            s.last()
        };
        if !is_control(c) {
            assert((preview_chars(s.take(i as int)) + preview_chars(s.drop_last().skip(i as int))).push(c)
                =~= preview_chars(s.take(i as int)) + preview_chars(s.drop_last().skip(i as int)).push(c));
        }
    }
}

/// The dashboard group of a thread, in the order the dashboard lists groups.
#[derive(Clone, Copy, Debug, PartialEq, Eq, Structural)]
pub enum AgentsOverviewGroup {
    NeedsYou,
    Working,
    Ready,
    Finished,
}

/// The rank of a group; groups that need the user come first.
pub open spec fn group_rank(g: AgentsOverviewGroup) -> nat {
    match g {
        AgentsOverviewGroup::NeedsYou => 0,
        AgentsOverviewGroup::Working => 1,
        AgentsOverviewGroup::Ready => 2,
        AgentsOverviewGroup::Finished => 3,
    }
}

/// A thread waiting on approval or input, or in error, needs the user; an
/// otherwise active one is working; an idle one is ready; an unloaded one
/// is finished.
pub open spec fn spec_group_for_status(status: ThreadStatus) -> AgentsOverviewGroup {
    match status {
        ThreadStatus::Active { waiting_on_approval, waiting_on_user_input } => if waiting_on_approval
            || waiting_on_user_input {
            AgentsOverviewGroup::NeedsYou
        } else {
            AgentsOverviewGroup::Working
        },
        ThreadStatus::Idle => AgentsOverviewGroup::Ready,
        ThreadStatus::SystemError => AgentsOverviewGroup::NeedsYou,
        ThreadStatus::NotLoaded => AgentsOverviewGroup::Finished,
    }
}

impl AgentsOverviewGroup {
    pub fn for_status(status: &ThreadStatus) -> (res: Self)
        ensures
            res == spec_group_for_status(*status),
    {
        match status {
            ThreadStatus::Active { waiting_on_approval, waiting_on_user_input } => {
                if *waiting_on_approval || *waiting_on_user_input {
                    AgentsOverviewGroup::NeedsYou
                } else {
                    AgentsOverviewGroup::Working
                }
            },
            ThreadStatus::Idle => AgentsOverviewGroup::Ready,
            ThreadStatus::SystemError => AgentsOverviewGroup::NeedsYou,
            ThreadStatus::NotLoaded => AgentsOverviewGroup::Finished,
        }
    }

    pub open spec fn spec_label(self) -> Seq<char> {
        match self {
            AgentsOverviewGroup::NeedsYou => "Needs input"@,
            AgentsOverviewGroup::Working => "Working"@,
            AgentsOverviewGroup::Ready => "Ready"@,
            AgentsOverviewGroup::Finished => "Finished"@,
        }
    }

    /// The heading the dashboard shows for the group.
    pub fn label(self) -> (res: &'static str)
        ensures
            res@ == self.spec_label(),
    {
        match self {
            AgentsOverviewGroup::NeedsYou => "Needs input",
            AgentsOverviewGroup::Working => "Working",
            AgentsOverviewGroup::Ready => "Ready",
            AgentsOverviewGroup::Finished => "Finished",
        }
    }

    /// Whether `self` is listed before `other`.
    pub fn precedes(self, other: Self) -> (res: bool)
        ensures
            res == (group_rank(self) < group_rank(other)),
    {
        let a: u8 = match self {
            AgentsOverviewGroup::NeedsYou => 0,
            AgentsOverviewGroup::Working => 1,
            AgentsOverviewGroup::Ready => 2,
            AgentsOverviewGroup::Finished => 3,
        };
        let b: u8 = match other {
            AgentsOverviewGroup::NeedsYou => 0,
            AgentsOverviewGroup::Working => 1,
            AgentsOverviewGroup::Ready => 2,
            AgentsOverviewGroup::Finished => 3,
        };
        a < b
    }
}

/// The characters before the first line break, without a trailing `\r`
/// (the first item of `str::lines`).
pub open spec fn first_line(s: Seq<char>) -> Seq<char>
    decreases s.len(),
{
    if s.len() == 0 {
        s
    } else if s[0] == '\n' {
        Seq::empty()
    } else if s.len() == 1 && s[0] == '\r' {
        Seq::empty()
    } else if s.len() >= 2 && s[0] == '\r' && s[1] == '\n' {
        Seq::empty()
    } else {
        seq![s[0]] + first_line(s.drop_first())
    }
}

/// A thread's title: its name, else its preview, trimmed, first line; an
/// empty one reads `Untitled task`.
pub open spec fn spec_display_title(t: Thread) -> Seq<char> {
    let source = match t.name {
        Some(n) => n@,
        None => t.preview@,
    };
    let trimmed = trim(source);
    if trimmed.len() == 0 {
        "Untitled task"@
    } else {
        first_line(trimmed)
    }
}

pub fn display_title(thread: &Thread) -> (res: String)
    ensures
        res@ == spec_display_title(*thread),
{
    let source = match &thread.name {
        Some(n) => n.as_str(),
        None => thread.preview.as_str(),
    };
    let trimmed = trim_chars(&chars_of(source));
    let n = trimmed.len();
    if n == 0 {
        return String::from_str("Untitled task");
    }
    let mut out = String::new();
    let mut i: usize = 0;
    assert(trimmed@.skip(0) =~= trimmed@);
    assert(out@ + first_line(trimmed@) =~= first_line(trimmed@));
    while i < n && trimmed[i] != '\n' && !(trimmed[i] == '\r' && (i + 1 == n || trimmed[i + 1] == '\n'))
        invariant
            n == trimmed@.len(),
            i <= n,
            first_line(trimmed@) == out@ + first_line(trimmed@.skip(i as int)),
        decreases n - i,
    {
        let c = trimmed[i];
        proof {
            let rest = trimmed@.skip(i as int);
            assert(rest[0] == c);
            assert(rest.drop_first() =~= trimmed@.skip(i + 1));
            if i + 1 < n {
                assert(rest[1] == trimmed@[i + 1]);
            }
        }
        let ghost before = out@;
        push_char(&mut out, c);
        proof {
            let rest = trimmed@.skip(i as int);
            assert(first_line(rest) == seq![c] + first_line(rest.drop_first()));
            assert(out@ + first_line(trimmed@.skip(i + 1)) =~= before + (seq![c] + first_line(
                rest.drop_first(),
            )));
        }
        i += 1;
    }
    proof {
        let rest = trimmed@.skip(i as int);
        if i < n {
            assert(rest[0] == trimmed@[i as int]);
            if i + 1 < n {
                assert(rest[1] == trimmed@[i + 1]);
            }
        }
        assert(first_line(rest) =~= Seq::<char>::empty());
        assert(out@ + Seq::<char>::empty() =~= out@);
    }
    out
}

} // verus!
