//! The retained agents data shared by the dashboard and the passive JSON
//! output. Notifications update it at once and are replayed over reads that
//! were in flight when they came; connections and rendering live elsewhere.

use crate::agents::table::{
    add_key, del_key, find_slot, get_slot, has_key, key_add, key_del, key_in, keys_unique,
    keys_view, lemma_key_add, lemma_key_del, lemma_slot_del, lemma_slot_pos, lemma_slot_put,
    put_slot, slot_del, slot_get, slot_has, slot_pos, slot_put, slots_unique, slots_view,
    take_slot, Slot,
};
use crate::agents::thread::{clone_opt_string, Thread, ThreadStatus};
use crate::proxy::stream::is_lower_hex;
use crate::rollout::usage::{parse_uuid, uuid_text};
use crate::text::str_is;
use vstd::prelude::*;

verus! {

/// A server notification, as far as the agents views read it.
#[derive(Clone, Debug, PartialEq, Eq)]
pub enum Notification {
    ThreadStarted { thread: Thread },
    ThreadArchived { thread_id: String },
    ThreadDeleted { thread_id: String },
    ThreadUnarchived { thread_id: String },
    ThreadClosed { thread_id: String },
    ThreadStatusChanged { thread_id: String, status: ThreadStatus },
    ThreadNameUpdated { thread_id: String, thread_name: Option<String> },
    ThreadSettingsUpdated { thread_id: String, cwd: String, model_provider: String },
    ThreadReverted { thread_id: String },
    TurnStarted { thread_id: String },
    TurnCompleted { thread_id: String },
    /// An item started that is a user message.
    UserMessageStarted { thread_id: String },
    /// Anything else, including items that are not user messages.
    Other,
}

impl Notification {
    /// A copy of the notification.
    pub fn duplicate(&self) -> (res: Notification)
        ensures
            res == *self,
    {
        match self {
            Notification::ThreadStarted { thread } => Notification::ThreadStarted {
                thread: thread.duplicate(),
            },
            Notification::ThreadArchived { thread_id } => Notification::ThreadArchived {
                thread_id: thread_id.clone(),
            },
            Notification::ThreadDeleted { thread_id } => Notification::ThreadDeleted {
                thread_id: thread_id.clone(),
            },
            Notification::ThreadUnarchived { thread_id } => Notification::ThreadUnarchived {
                thread_id: thread_id.clone(),
            },
            Notification::ThreadClosed { thread_id } => Notification::ThreadClosed {
                thread_id: thread_id.clone(),
            },
            Notification::ThreadStatusChanged { thread_id, status } =>
                Notification::ThreadStatusChanged { thread_id: thread_id.clone(), status: *status },
            Notification::ThreadNameUpdated { thread_id, thread_name } =>
                Notification::ThreadNameUpdated {
                thread_id: thread_id.clone(),
                thread_name: clone_opt_string(thread_name),
            },
            Notification::ThreadSettingsUpdated { thread_id, cwd, model_provider } =>
                Notification::ThreadSettingsUpdated {
                thread_id: thread_id.clone(),
                cwd: cwd.clone(),
                model_provider: model_provider.clone(),
            },
            Notification::ThreadReverted { thread_id } => Notification::ThreadReverted {
                thread_id: thread_id.clone(),
            },
            Notification::TurnStarted { thread_id } => Notification::TurnStarted {
                thread_id: thread_id.clone(),
            },
            Notification::TurnCompleted { thread_id } => Notification::TurnCompleted {
                thread_id: thread_id.clone(),
            },
            Notification::UserMessageStarted { thread_id } => Notification::UserMessageStarted {
                thread_id: thread_id.clone(),
            },
            Notification::Other => Notification::Other,
        }
    }
}

/// The thread a notification is about, as the server wrote it; none for
/// notifications the model ignores, ephemeral thread starts among them.
pub open spec fn notification_thread_id(n: Notification) -> Option<Seq<char>> {
    match n {
        Notification::ThreadStarted { thread } => if thread.ephemeral {
            None
        } else {
            Some(thread.id@)
        },
        Notification::ThreadArchived { thread_id } => Some(thread_id@),
        Notification::ThreadDeleted { thread_id } => Some(thread_id@),
        Notification::ThreadUnarchived { thread_id } => Some(thread_id@),
        Notification::ThreadClosed { thread_id } => Some(thread_id@),
        Notification::ThreadStatusChanged { thread_id, .. } => Some(thread_id@),
        Notification::ThreadNameUpdated { thread_id, .. } => Some(thread_id@),
        Notification::ThreadSettingsUpdated { thread_id, .. } => Some(thread_id@),
        Notification::ThreadReverted { thread_id } => Some(thread_id@),
        Notification::TurnStarted { thread_id } => Some(thread_id@),
        Notification::TurnCompleted { thread_id } => Some(thread_id@),
        Notification::UserMessageStarted { thread_id } => Some(thread_id@),
        Notification::Other => None,
    }
}

/// The kind of a notification; a pending replay keeps one of each kind per thread.
pub open spec fn notification_kind(n: Notification) -> nat {
    match n {
        Notification::ThreadStarted { .. } => 0,
        Notification::ThreadArchived { .. } => 1,
        Notification::ThreadDeleted { .. } => 2,
        Notification::ThreadUnarchived { .. } => 3,
        Notification::ThreadClosed { .. } => 4,
        Notification::ThreadStatusChanged { .. } => 5,
        Notification::ThreadNameUpdated { .. } => 6,
        Notification::ThreadSettingsUpdated { .. } => 7,
        Notification::ThreadReverted { .. } => 8,
        Notification::TurnStarted { .. } => 9,
        Notification::TurnCompleted { .. } => 10,
        Notification::UserMessageStarted { .. } => 11,
        Notification::Other => 12,
    }
}

fn raw_thread_id(n: &Notification) -> (res: Option<&str>)
    ensures
        match res {
            Some(s) => notification_thread_id(*n) == Some(s@),
            None => notification_thread_id(*n) is None,
        },
{
    match n {
        Notification::ThreadStarted { thread } => {
            if thread.ephemeral {
                None
            } else {
                Some(thread.id.as_str())
            }
        },
        Notification::ThreadArchived { thread_id } => Some(thread_id.as_str()),
        Notification::ThreadDeleted { thread_id } => Some(thread_id.as_str()),
        Notification::ThreadUnarchived { thread_id } => Some(thread_id.as_str()),
        Notification::ThreadClosed { thread_id } => Some(thread_id.as_str()),
        Notification::ThreadStatusChanged { thread_id, .. } => Some(thread_id.as_str()),
        Notification::ThreadNameUpdated { thread_id, .. } => Some(thread_id.as_str()),
        Notification::ThreadSettingsUpdated { thread_id, .. } => Some(thread_id.as_str()),
        Notification::ThreadReverted { thread_id } => Some(thread_id.as_str()),
        Notification::TurnStarted { thread_id } => Some(thread_id.as_str()),
        Notification::TurnCompleted { thread_id } => Some(thread_id.as_str()),
        Notification::UserMessageStarted { thread_id } => Some(thread_id.as_str()),
        Notification::Other => None,
    }
}

fn kind_of(n: &Notification) -> (res: u8)
    ensures
        res == notification_kind(*n),
{
    match n {
        Notification::ThreadStarted { .. } => 0,
        Notification::ThreadArchived { .. } => 1,
        Notification::ThreadDeleted { .. } => 2,
        Notification::ThreadUnarchived { .. } => 3,
        Notification::ThreadClosed { .. } => 4,
        Notification::ThreadStatusChanged { .. } => 5,
        Notification::ThreadNameUpdated { .. } => 6,
        Notification::ThreadSettingsUpdated { .. } => 7,
        Notification::ThreadReverted { .. } => 8,
        Notification::TurnStarted { .. } => 9,
        Notification::TurnCompleted { .. } => 10,
        Notification::UserMessageStarted { .. } => 11,
        Notification::Other => 12,
    }
}

/// A change a notification makes to a listed thread.
#[derive(Clone, Debug, PartialEq, Eq)]
pub enum ThreadEdit {
    Status(ThreadStatus),
    Name(Option<String>),
    Settings { cwd: String, model_provider: String },
}

pub open spec fn apply_edit(t: Thread, e: ThreadEdit) -> Thread {
    match e {
        ThreadEdit::Status(status) => Thread { status, ..t },
        ThreadEdit::Name(name) => Thread { name, ..t },
        ThreadEdit::Settings { cwd, model_provider } => Thread { cwd, model_provider, ..t },
    }
}

/// The threads with the edit made to the one under `id`, if its metadata is known.
pub open spec fn edit_thread(s: Seq<(Seq<char>, Option<Thread>)>, id: Seq<char>, e: ThreadEdit) -> Seq<
    (Seq<char>, Option<Thread>),
> {
    let p = slot_pos(s, id, 0);
    if p < s.len() && s[p].1 is Some {
        s.update(p, (s[p].0, Some(apply_edit(s[p].1->0, e))))
    } else {
        s
    }
}

fn edited(t: Thread, e: ThreadEdit) -> (res: Thread)
    ensures
        res == apply_edit(t, e),
{
    let mut t = t;
    match e {
        ThreadEdit::Status(status) => {
            t.status = status;
        },
        ThreadEdit::Name(name) => {
            t.name = name;
        },
        ThreadEdit::Settings { cwd, model_provider } => {
            t.cwd = cwd;
            t.model_provider = model_provider;
        },
    }
    t
}

fn edit_thread_in(threads: &mut Vec<Slot<Option<Thread>>>, id: &str, edit: ThreadEdit)
    ensures
        slots_view(final(threads)@) == edit_thread(slots_view(old(threads)@), id@, edit),
{
    let ghost s = slots_view(threads@);
    let p = find_slot(threads, id);
    if p < threads.len() {
        let slot = threads.remove(p);
        let Slot { id: key, value } = slot;
        assert(key@ == s[p as int].0);
        let value = match value {
            Some(t) => Some(edited(t, edit)),
            None => None,
        };
        threads.insert(p, Slot { id: key, value });
        assert(slots_view(threads@) =~= edit_thread(s, id@, edit));
    }
}

/// The pending notifications without those of kind `k` about thread `id`.
pub open spec fn without_kind(s: Seq<(Seq<char>, Notification)>, id: Seq<char>, k: nat) -> Seq<
    (Seq<char>, Notification),
>
    decreases s.len(),
{
    if s.len() == 0 {
        s
    } else {
        let rest = without_kind(s.drop_last(), id, k);
        if s.last().0 == id && notification_kind(s.last().1) == k {
            rest
        } else {
            rest.push(s.last())
        }
    }
}

fn drop_kind_in(v: &mut Vec<Slot<Notification>>, id: &str, k: u8)
    ensures
        slots_view(final(v)@) == without_kind(slots_view(old(v)@), id@, k as nat),
{
    let ghost s = slots_view(v@);
    let mut out: Vec<Slot<Notification>> = Vec::new();
    let n = v.len();
    let mut i: usize = 0;
    while i < n
        invariant
            n == v@.len(),
            s == slots_view(v@),
            i <= n,
            slots_view(out@) == without_kind(s.take(i as int), id@, k as nat),
        decreases n - i,
    {
        proof {
            assert(s.take(i + 1).drop_last() =~= s.take(i as int));
            assert(s.take(i + 1).last() == s[i as int]);
        }
        if !(str_is(v[i].id.as_str(), id) && kind_of(&v[i].value) == k) {
            let slot = Slot { id: v[i].id.clone(), value: v[i].value.duplicate() };
            let ghost before = slots_view(out@);
            out.push(slot);
            assert(slots_view(out@) =~= before.push(s[i as int]));
        }
        i += 1;
    }
    assert(s.take(n as int) =~= s);
    *v = out;
}

/// The retained agents data.
#[derive(Clone, Debug, PartialEq, Eq)]
pub struct AgentsModel {
    /// An entry without metadata records a discovered thread until a read succeeds.
    pub threads: Vec<Slot<Option<Thread>>>,
    pub last_messages: Vec<Slot<String>>,
    pub initialized: bool,
    pub request_id: Option<String>,
    pub refresh_pending: bool,
    pub refresh_thread_ids: Vec<String>,
    /// Notifications that came while a read was in flight, to replay over it.
    pub refresh_notifications: Vec<Slot<Notification>>,
    /// Threads archived or deleted since the connection began.
    pub removed: Vec<String>,
    pub reconcile_archives: bool,
}

/// The model's state, keyed by thread id text.
pub struct AgentsModelV {
    pub threads: Seq<(Seq<char>, Option<Thread>)>,
    pub last_messages: Seq<(Seq<char>, String)>,
    pub initialized: bool,
    pub request_id: Option<Seq<char>>,
    pub refresh_pending: bool,
    pub refresh_thread_ids: Seq<Seq<char>>,
    pub refresh_notifications: Seq<(Seq<char>, Notification)>,
    pub removed: Seq<Seq<char>>,
    pub reconcile_archives: bool,
}

impl View for AgentsModel {
    type V = AgentsModelV;

    open spec fn view(&self) -> AgentsModelV {
        AgentsModelV {
            threads: slots_view(self.threads@),
            last_messages: slots_view(self.last_messages@),
            initialized: self.initialized,
            request_id: match self.request_id {
                Some(r) => Some(r@),
                None => None,
            },
            refresh_pending: self.refresh_pending,
            refresh_thread_ids: keys_view(self.refresh_thread_ids@),
            refresh_notifications: slots_view(self.refresh_notifications@),
            removed: keys_view(self.removed@),
            reconcile_archives: self.reconcile_archives,
        }
    }
}

impl AgentsModelV {
    /// Keys are unique, and no archived or deleted thread is listed.
    pub open spec fn wf(self) -> bool {
        &&& slots_unique(self.threads)
        &&& slots_unique(self.last_messages)
        &&& keys_unique(self.refresh_thread_ids)
        &&& keys_unique(self.removed)
        &&& forall|k: Seq<char>| #[trigger] key_in(self.removed, k) ==> !slot_has(self.threads, k)
    }
}

/// Marks thread `id` archived or deleted.
pub open spec fn archive(m: AgentsModelV, id: Seq<char>) -> AgentsModelV {
    AgentsModelV {
        removed: key_add(m.removed, id),
        threads: slot_del(m.threads, id),
        last_messages: slot_del(m.last_messages, id),
        refresh_thread_ids: key_del(m.refresh_thread_ids, id),
        ..m
    }
}

/// What a notification about thread `id` does to the data, or none when it
/// is about a thread archived or deleted since.
pub open spec fn spec_effect(m: AgentsModelV, n: Notification, id: Seq<char>) -> Option<AgentsModelV> {
    match n {
        Notification::ThreadStarted { thread } => Some(
            AgentsModelV {
                removed: key_del(m.removed, id),
                threads: slot_put(m.threads, id, Some(thread)),
                ..m
            },
        ),
        Notification::ThreadUnarchived { .. } => Some(
            AgentsModelV { removed: key_del(m.removed, id), ..m },
        ),
        Notification::ThreadArchived { .. } => Some(archive(m, id)),
        Notification::ThreadDeleted { .. } => Some(archive(m, id)),
        _ => if key_in(m.removed, id) {
            None
        } else {
            Some(
                match n {
                    Notification::ThreadClosed { .. } => AgentsModelV {
                        threads: edit_thread(m.threads, id, ThreadEdit::Status(ThreadStatus::NotLoaded)),
                        ..m
                    },
                    Notification::ThreadStatusChanged { status, .. } => AgentsModelV {
                        threads: edit_thread(m.threads, id, ThreadEdit::Status(status)),
                        ..m
                    },
                    Notification::ThreadNameUpdated { thread_name, .. } => AgentsModelV {
                        threads: edit_thread(m.threads, id, ThreadEdit::Name(thread_name)),
                        ..m
                    },
                    Notification::ThreadSettingsUpdated { cwd, model_provider, .. } => AgentsModelV {
                        threads: edit_thread(
                            m.threads,
                            id,
                            ThreadEdit::Settings { cwd, model_provider },
                        ),
                        ..m
                    },
                    Notification::ThreadReverted { .. } => AgentsModelV {
                        last_messages: slot_del(m.last_messages, id),
                        ..m
                    },
                    _ => m,
                },
            )
        },
    }
}

/// After an accepted notification: the thread is marked for the next read
/// unless it is gone, and while a read is in flight the notification waits
/// to be replayed, replacing an earlier one of its kind.
pub open spec fn spec_record(m: AgentsModelV, n: Notification, id: Seq<char>) -> AgentsModelV {
    let m2 = if key_in(m.removed, id) {
        m
    } else {
        AgentsModelV { refresh_thread_ids: key_add(m.refresh_thread_ids, id), ..m }
    };
    if m2.request_id is Some {
        AgentsModelV {
            refresh_pending: true,
            refresh_notifications: without_kind(
                m2.refresh_notifications,
                id,
                notification_kind(n),
            ).push((id, n)),
            ..m2
        }
    } else {
        m2
    }
}

/// A notification about the thread whose parsed id is `id`: the new data and
/// whether the notification was taken.
pub open spec fn spec_observe_id(m: AgentsModelV, n: Notification, id: Seq<char>) -> (
    AgentsModelV,
    bool,
) {
    match spec_effect(m, n, id) {
        Some(m1) => (spec_record(m1, n, id), true),
        None => (m, false),
    }
}

/// A notification: ignored unless it names a thread whose id parses.
pub open spec fn spec_observe(m: AgentsModelV, n: Notification) -> (AgentsModelV, bool) {
    match notification_thread_id(n) {
        Some(raw) => match uuid_text(raw) {
            Some(id) => spec_observe_id(m, n, id),
            None => (m, false),
        },
        None => (m, false),
    }
}

proof fn lemma_effect_wf(m: AgentsModelV, n: Notification, id: Seq<char>)
    requires
        m.wf(),
    ensures
        spec_effect(m, n, id) matches Some(m1) ==> m1.wf(),
{
    lemma_key_add(m.removed, id);
    lemma_key_del(m.removed, id);
    lemma_key_del(m.refresh_thread_ids, id);
    lemma_slot_del(m.threads, id);
    lemma_slot_del(m.last_messages, id);
    match n {
        Notification::ThreadStarted { thread } => {
            lemma_slot_put(m.threads, id, Some(thread));
            let m1 = spec_effect(m, n, id)->0;
            assert forall|k: Seq<char>| #[trigger] key_in(m1.removed, k) implies !slot_has(
                m1.threads,
                k,
            ) by {
                assert(key_in(m.removed, k) && k != id);
            }
        },
        Notification::ThreadUnarchived { .. } => {},
        Notification::ThreadArchived { .. } => {
            let m1 = archive(m, id);
            assert forall|k: Seq<char>| #[trigger] key_in(m1.removed, k) implies !slot_has(
                m1.threads,
                k,
            ) by {
                if k != id {
                    assert(key_in(m.removed, k));
                }
            }
        },
        Notification::ThreadDeleted { .. } => {
            let m1 = archive(m, id);
            assert forall|k: Seq<char>| #[trigger] key_in(m1.removed, k) implies !slot_has(
                m1.threads,
                k,
            ) by {
                if k != id {
                    assert(key_in(m.removed, k));
                }
            }
        },
        _ => {
            if !key_in(m.removed, id) {
                lemma_edit_thread_keys(m.threads, id);
            }
        },
    }
}

/// Editing a thread keeps the keys.
proof fn lemma_edit_thread_keys(s: Seq<(Seq<char>, Option<Thread>)>, id: Seq<char>)
    ensures
        forall|e: ThreadEdit| #[trigger] edit_thread(s, id, e).len() == s.len(),
        forall|e: ThreadEdit, j: int|
            0 <= j < s.len() ==> #[trigger] edit_thread(s, id, e)[j].0 == s[j].0,
        slots_unique(s) ==> forall|e: ThreadEdit| #[trigger] slots_unique(edit_thread(s, id, e)),
        forall|e: ThreadEdit, k: Seq<char>| #[trigger]
            slot_has(edit_thread(s, id, e), k) == slot_has(s, k),
{
    lemma_slot_pos(s, id, 0);
    assert forall|e: ThreadEdit, k: Seq<char>| #[trigger]
        slot_has(edit_thread(s, id, e), k) == slot_has(s, k) by {
        let r = edit_thread(s, id, e);
        assert(r.len() == s.len());
        assert(forall|j: int| 0 <= j < s.len() ==> r[j].0 == s[j].0);
        crate::agents::table::lemma_slot_has(s, k);
        crate::agents::table::lemma_slot_has(r, k);
        if slot_has(s, k) {
            let j = choose|j: int| 0 <= j < s.len() && s[j].0 == k;
            assert(r[j].0 == k);
        }
        if slot_has(r, k) {
            let j = choose|j: int| 0 <= j < r.len() && r[j].0 == k;
            assert(s[j].0 == k);
        }
    }
    assert forall|e: ThreadEdit| slots_unique(s) implies #[trigger] slots_unique(
        edit_thread(s, id, e),
    ) by {
        let r = edit_thread(s, id, e);
        assert(forall|j: int| 0 <= j < s.len() ==> r[j].0 == s[j].0);
    }
}

proof fn lemma_without_kind(s: Seq<(Seq<char>, Notification)>, id: Seq<char>, k: nat)
    ensures
        without_kind(s, id, k).len() <= s.len(),
    decreases s.len(),
{
    if s.len() > 0 {
        lemma_without_kind(s.drop_last(), id, k);
    }
}

proof fn lemma_record_wf(m: AgentsModelV, n: Notification, id: Seq<char>)
    requires
        m.wf(),
    ensures
        spec_record(m, n, id).wf(),
        spec_record(m, n, id).threads == m.threads,
        spec_record(m, n, id).removed == m.removed,
{
    lemma_key_add(m.refresh_thread_ids, id);
}

proof fn lemma_observe_id_wf(m: AgentsModelV, n: Notification, id: Seq<char>)
    requires
        m.wf(),
    ensures
        spec_observe_id(m, n, id).0.wf(),
{
    lemma_effect_wf(m, n, id);
    if let Some(m1) = spec_effect(m, n, id) {
        lemma_record_wf(m1, n, id);
    }
}

proof fn lemma_observe_wf(m: AgentsModelV, n: Notification)
    requires
        m.wf(),
    ensures
        spec_observe(m, n).0.wf(),
{
    if let Some(raw) = notification_thread_id(n) {
        if let Some(id) = uuid_text(raw) {
            lemma_observe_id_wf(m, n, id);
        }
    }
}

impl AgentsModel {
    /// An empty model, before any connection.
    pub fn new() -> (res: AgentsModel)
        ensures
            res@.threads.len() == 0,
            res@.last_messages.len() == 0,
            !res@.initialized,
            res@.request_id is None,
            !res@.refresh_pending,
            res@.refresh_thread_ids.len() == 0,
            res@.refresh_notifications.len() == 0,
            res@.removed.len() == 0,
            !res@.reconcile_archives,
            res@.wf(),
    {
        AgentsModel {
            threads: Vec::new(),
            last_messages: Vec::new(),
            initialized: false,
            request_id: None,
            refresh_pending: false,
            refresh_thread_ids: Vec::new(),
            refresh_notifications: Vec::new(),
            removed: Vec::new(),
            reconcile_archives: false,
        }
    }

    fn archive_in(&mut self, id: &str)
        ensures
            final(self)@ == archive(old(self)@, id@),
    {
        add_key(&mut self.removed, String::from_str(id));
        take_slot(&mut self.threads, id);
        take_slot(&mut self.last_messages, id);
        del_key(&mut self.refresh_thread_ids, id);
    }

    /// Takes a notification about the thread whose parsed id is `id`, and says
    /// whether it was taken.
    pub fn observe_id(&mut self, notification: &Notification, id: &str) -> (res: bool)
        requires
            old(self)@.wf(),
        ensures
            (final(self)@, res) == spec_observe_id(old(self)@, *notification, id@),
            final(self)@.wf(),
    {
        proof {
            lemma_observe_id_wf(self@, *notification, id@);
        }
        match notification {
            Notification::ThreadStarted { thread } => {
                del_key(&mut self.removed, id);
                put_slot(&mut self.threads, String::from_str(id), Some(thread.duplicate()));
            },
            Notification::ThreadUnarchived { .. } => {
                del_key(&mut self.removed, id);
            },
            Notification::ThreadArchived { .. } => {
                self.archive_in(id);
            },
            Notification::ThreadDeleted { .. } => {
                self.archive_in(id);
            },
            _ => {
                if has_key(&self.removed, id) {
                    return false;
                }
                match notification {
                    Notification::ThreadClosed { .. } => {
                        edit_thread_in(
                            &mut self.threads,
                            id,
                            ThreadEdit::Status(ThreadStatus::NotLoaded),
                        );
                    },
                    Notification::ThreadStatusChanged { status, .. } => {
                        edit_thread_in(&mut self.threads, id, ThreadEdit::Status(*status));
                    },
                    Notification::ThreadNameUpdated { thread_name, .. } => {
                        edit_thread_in(
                            &mut self.threads,
                            id,
                            ThreadEdit::Name(clone_opt_string(thread_name)),
                        );
                    },
                    Notification::ThreadSettingsUpdated { cwd, model_provider, .. } => {
                        edit_thread_in(
                            &mut self.threads,
                            id,
                            ThreadEdit::Settings {
                                cwd: cwd.clone(),
                                model_provider: model_provider.clone(),
                            },
                        );
                    },
                    Notification::ThreadReverted { .. } => {
                        take_slot(&mut self.last_messages, id);
                    },
                    _ => {},
                }
            },
        }
        if !has_key(&self.removed, id) {
            add_key(&mut self.refresh_thread_ids, String::from_str(id));
        }
        if self.request_id.is_some() {
            self.refresh_pending = true;
            drop_kind_in(&mut self.refresh_notifications, id, kind_of(notification));
            let ghost before = self.refresh_notifications@;
            self.refresh_notifications.push(
                Slot { id: String::from_str(id), value: notification.duplicate() },
            );
            assert(slots_view(self.refresh_notifications@) =~= slots_view(before).push(
                (id@, *notification),
            ));
        }
        true
    }

    /// Takes a notification, and says whether it was taken: one about a
    /// thread whose id parses (`uuid::Uuid::parse_str`).
    pub fn observe(&mut self, notification: &Notification) -> (res: bool)
        requires
            old(self)@.wf(),
        ensures
            (final(self)@, res) == spec_observe(old(self)@, *notification),
            final(self)@.wf(),
    {
        let raw = match raw_thread_id(notification) {
            Some(raw) => raw,
            None => return false,
        };
        let id = match parse_uuid(raw) {
            Some(id) => id,
            None => return false,
        };
        self.observe_id(notification, id.as_str())
    }
}


/// `s` is a UUID written hyphenated in lower case.
pub open spec fn is_hyphenated_uuid(s: Seq<char>) -> bool {
    &&& s.len() == 36
    &&& forall|i: int|
        #![trigger s[i]]
        0 <= i < 36 ==> if i == 8 || i == 13 || i == 18 || i == 23 {
            s[i] == '-'
        } else {
            is_lower_hex(s[i])
        }
}

/// A new random UUID (`uuid::Uuid::new_v4`), written hyphenated in lower
/// case. Its value rests on chance, so only its form is stated.
#[verifier::external_body]
pub(crate) fn new_request_id() -> (res: String)
    ensures
        is_hyphenated_uuid(res@),
{
    uuid::Uuid::new_v4().hyphenated().to_string()
}

/// A read of thread metadata to run against the server.
#[derive(Clone, Debug, PartialEq, Eq)]
pub struct RefreshRequest {
    pub id: String,
    /// Whether the read discovers recent and loaded threads first.
    pub discover: bool,
    /// Whether it lists archived threads to find those archived meanwhile.
    pub reconcile_archives: bool,
    /// The threads to read, with the metadata held for each.
    pub threads: Vec<Slot<Option<Thread>>>,
    /// Threads whose metadata is known or that are gone: their parents are not read again.
    pub known_ids: Vec<String>,
}

pub struct RefreshRequestV {
    pub id: Seq<char>,
    pub discover: bool,
    pub reconcile_archives: bool,
    pub threads: Seq<(Seq<char>, Option<Thread>)>,
    pub known_ids: Seq<Seq<char>>,
}

impl View for RefreshRequest {
    type V = RefreshRequestV;

    open spec fn view(&self) -> RefreshRequestV {
        RefreshRequestV {
            id: self.id@,
            discover: self.discover,
            reconcile_archives: self.reconcile_archives,
            threads: slots_view(self.threads@),
            known_ids: keys_view(self.known_ids@),
        }
    }
}

/// The keys of a table, in order.
pub open spec fn keys_of<V>(s: Seq<(Seq<char>, V)>) -> Seq<Seq<char>> {
    s.map_values(|e: (Seq<char>, V)| e.0)
}

/// `ids` with each of `more` added in turn when absent.
pub open spec fn keys_extend(ids: Seq<Seq<char>>, more: Seq<Seq<char>>) -> Seq<Seq<char>>
    decreases more.len(),
{
    if more.len() == 0 {
        ids
    } else {
        key_add(keys_extend(ids, more.drop_last()), more.last())
    }
}

/// The threads whose metadata is known, in order.
pub open spec fn known_keys(s: Seq<(Seq<char>, Option<Thread>)>) -> Seq<Seq<char>>
    decreases s.len(),
{
    if s.len() == 0 {
        Seq::empty()
    } else {
        let rest = known_keys(s.drop_last());
        if s.last().1 is Some {
            rest.push(s.last().0)
        } else {
            rest
        }
    }
}

pub open spec fn flatten_thread(o: Option<Option<Thread>>) -> Option<Thread> {
    match o {
        Some(Some(t)) => Some(t),
        _ => None,
    }
}

/// Each of `ids` with the metadata held for it.
pub open spec fn request_threads(ids: Seq<Seq<char>>, threads: Seq<(Seq<char>, Option<Thread>)>) -> Seq<
    (Seq<char>, Option<Thread>),
> {
    ids.map_values(|k: Seq<char>| (k, flatten_thread(slot_get(threads, k))))
}

/// The threads a new read covers: those marked, and before the first full
/// discovery every thread held.
pub open spec fn begin_ids(m: AgentsModelV) -> Seq<Seq<char>> {
    if m.initialized {
        m.refresh_thread_ids
    } else {
        keys_extend(m.refresh_thread_ids, keys_of(m.threads))
    }
}

/// A read starts unless one is in flight or, after discovery, nothing is marked.
pub open spec fn spec_begin_sends(m: AgentsModelV) -> bool {
    m.request_id is None && !(m.initialized && m.refresh_thread_ids.len() == 0)
}

/// The data when no read starts: a read in flight is asked to run again after it.
pub open spec fn spec_begin_unsent(m: AgentsModelV) -> AgentsModelV {
    if m.request_id is Some {
        AgentsModelV { refresh_pending: true, ..m }
    } else {
        m
    }
}

/// The data once the read `id` starts.
pub open spec fn spec_begin_state(m: AgentsModelV, id: Seq<char>) -> AgentsModelV {
    AgentsModelV {
        request_id: Some(id),
        refresh_pending: false,
        refresh_thread_ids: Seq::empty(),
        ..m
    }
}

/// The read `id` that starts.
pub open spec fn spec_begin_request(m: AgentsModelV, id: Seq<char>) -> RefreshRequestV {
    RefreshRequestV {
        id,
        discover: !m.initialized,
        reconcile_archives: m.reconcile_archives,
        threads: request_threads(begin_ids(m), m.threads),
        known_ids: known_keys(m.threads) + m.removed,
    }
}

/// What a read brought back.
#[derive(Clone, Debug, PartialEq, Eq)]
pub struct AgentsRefresh {
    pub threads: Vec<Slot<Option<Thread>>>,
    pub last_messages: Vec<Slot<String>>,
    pub recent_seed_complete: bool,
    pub removed: Vec<String>,
    /// The first error met; the data read is kept, but the snapshot is not complete.
    pub error: Option<String>,
}

pub struct AgentsRefreshV {
    pub threads: Seq<(Seq<char>, Option<Thread>)>,
    pub last_messages: Seq<(Seq<char>, String)>,
    pub recent_seed_complete: bool,
    pub removed: Seq<Seq<char>>,
    pub error: Option<Seq<char>>,
}

impl View for AgentsRefresh {
    type V = AgentsRefreshV;

    open spec fn view(&self) -> AgentsRefreshV {
        AgentsRefreshV {
            threads: slots_view(self.threads@),
            last_messages: slots_view(self.last_messages@),
            recent_seed_complete: self.recent_seed_complete,
            removed: keys_view(self.removed@),
            error: match self.error {
                Some(e) => Some(e@),
                None => None,
            },
        }
    }
}

/// `s` with each entry of `more` put in turn.
pub open spec fn put_all<V>(s: Seq<(Seq<char>, V)>, more: Seq<(Seq<char>, V)>) -> Seq<(Seq<char>, V)>
    decreases more.len(),
{
    if more.len() == 0 {
        s
    } else {
        let rest = put_all(s, more.drop_last());
        slot_put(rest, more.last().0, more.last().1)
    }
}

/// The data with each of `ids` marked gone.
pub open spec fn remove_all(m: AgentsModelV, ids: Seq<Seq<char>>) -> AgentsModelV
    decreases ids.len(),
{
    if ids.len() == 0 {
        m
    } else {
        let r = remove_all(m, ids.drop_last());
        let k = ids.last();
        AgentsModelV {
            removed: key_add(r.removed, k),
            threads: slot_del(r.threads, k),
            last_messages: slot_del(r.last_messages, k),
            ..r
        }
    }
}

/// One thread read: ignored when the thread is gone, dropped when it turned
/// out ephemeral, kept otherwise; a thread read without metadata is listed
/// without it unless already listed.
pub open spec fn apply_record(m: AgentsModelV, k: Seq<char>, t: Option<Thread>) -> AgentsModelV {
    if key_in(m.removed, k) {
        m
    } else {
        match t {
            Some(t) => if t.ephemeral {
                AgentsModelV {
                    threads: slot_del(m.threads, k),
                    last_messages: slot_del(m.last_messages, k),
                    ..m
                }
            } else {
                AgentsModelV { threads: slot_put(m.threads, k, Some(t)), ..m }
            },
            None => if slot_has(m.threads, k) {
                m
            } else {
                AgentsModelV { threads: slot_put(m.threads, k, None), ..m }
            },
        }
    }
}

pub open spec fn apply_records(m: AgentsModelV, recs: Seq<(Seq<char>, Option<Thread>)>) -> AgentsModelV
    decreases recs.len(),
{
    if recs.len() == 0 {
        m
    } else {
        apply_record(apply_records(m, recs.drop_last()), recs.last().0, recs.last().1)
    }
}

/// The data after taking in what a read brought back.
pub open spec fn absorb(m: AgentsModelV, r: AgentsRefreshV) -> AgentsModelV {
    let m1 = AgentsModelV {
        initialized: r.recent_seed_complete,
        reconcile_archives: if r.recent_seed_complete {
            false
        } else {
            m.reconcile_archives
        },
        last_messages: put_all(m.last_messages, r.last_messages),
        ..m
    };
    apply_records(remove_all(m1, r.removed), r.threads)
}

/// The data after observing each of `pending` in turn.
pub open spec fn replay(m: AgentsModelV, pending: Seq<(Seq<char>, Notification)>) -> AgentsModelV
    decreases pending.len(),
{
    if pending.len() == 0 {
        m
    } else {
        spec_observe(replay(m, pending.drop_last()), pending.last().1).0
    }
}

/// The end of read `request_id`: a stale read changes nothing; otherwise what
/// it brought is taken in, the notifications that came meanwhile are
/// replayed over it, and another read is due when threads are marked.
pub open spec fn spec_finish(
    m: AgentsModelV,
    request_id: Seq<char>,
    result: Result<AgentsRefreshV, Seq<char>>,
) -> (AgentsModelV, Result<(), Seq<char>>) {
    if m.request_id != Some(request_id) {
        (m, Ok(()))
    } else {
        let m0 = AgentsModelV { request_id: None, refresh_notifications: Seq::empty(), ..m };
        let (m1, out) = match result {
            Ok(r) => (
                absorb(m0, r),
                match r.error {
                    Some(e) => Err(e),
                    None => Ok(()),
                },
            ),
            Err(e) => (m0, Err(e)),
        };
        let m2 = replay(m1, m.refresh_notifications);
        (AgentsModelV { refresh_pending: m2.refresh_thread_ids.len() > 0, ..m2 }, out)
    }
}

/// The data when the connection is lost: what the next connection must read
/// again is forgotten, and archives are reconciled if threads are held.
pub open spec fn spec_reset(m: AgentsModelV) -> AgentsModelV {
    AgentsModelV {
        reconcile_archives: m.threads.len() > 0,
        initialized: false,
        request_id: None,
        refresh_pending: false,
        refresh_notifications: Seq::empty(),
        last_messages: Seq::empty(),
        removed: Seq::empty(),
        ..m
    }
}

pub open spec fn unit_result_view(r: Result<(), String>) -> Result<(), Seq<char>> {
    match r {
        Ok(()) => Ok(()),
        Err(e) => Err(e@),
    }
}

pub open spec fn refresh_result_view(r: Result<AgentsRefresh, String>) -> Result<
    AgentsRefreshV,
    Seq<char>,
> {
    match r {
        Ok(x) => Ok(x@),
        Err(e) => Err(e@),
    }
}

proof fn lemma_keys_extend_unique(ids: Seq<Seq<char>>, more: Seq<Seq<char>>)
    requires
        keys_unique(ids),
    ensures
        keys_unique(keys_extend(ids, more)),
    decreases more.len(),
{
    if more.len() > 0 {
        lemma_keys_extend_unique(ids, more.drop_last());
        lemma_key_add(keys_extend(ids, more.drop_last()), more.last());
    }
}

proof fn lemma_put_all_unique<V>(s: Seq<(Seq<char>, V)>, more: Seq<(Seq<char>, V)>)
    requires
        slots_unique(s),
    ensures
        slots_unique(put_all(s, more)),
    decreases more.len(),
{
    if more.len() > 0 {
        lemma_put_all_unique(s, more.drop_last());
        lemma_slot_put(put_all(s, more.drop_last()), more.last().0, more.last().1);
    }
}

proof fn lemma_remove_step_wf(r: AgentsModelV, k: Seq<char>)
    requires
        r.wf(),
    ensures
        (AgentsModelV {
            removed: key_add(r.removed, k),
            threads: slot_del(r.threads, k),
            last_messages: slot_del(r.last_messages, k),
            ..r
        }).wf(),
{
    lemma_key_add(r.removed, k);
    lemma_slot_del(r.threads, k);
    lemma_slot_del(r.last_messages, k);
    assert forall|x: Seq<char>| #[trigger] key_in(key_add(r.removed, k), x) implies !slot_has(
        slot_del(r.threads, k),
        x,
    ) by {
        if x != k {
            assert(key_in(r.removed, x));
        }
    }
}

proof fn lemma_record_step_wf(m: AgentsModelV, k: Seq<char>, t: Option<Thread>)
    requires
        m.wf(),
    ensures
        apply_record(m, k, t).wf(),
{
    lemma_slot_del(m.threads, k);
    lemma_slot_del(m.last_messages, k);
    if !key_in(m.removed, k) {
        match t {
            Some(th) => {
                lemma_slot_put(m.threads, k, Some(th));
                let r = apply_record(m, k, t);
                assert forall|x: Seq<char>| #[trigger] key_in(r.removed, x) implies !slot_has(
                    r.threads,
                    x,
                ) by {
                    assert(x != k);
                }
            },
            None => {
                lemma_slot_put(m.threads, k, None);
                let r = apply_record(m, k, t);
                assert forall|x: Seq<char>| #[trigger] key_in(r.removed, x) implies !slot_has(
                    r.threads,
                    x,
                ) by {
                    assert(x != k);
                }
            },
        }
    }
}

impl AgentsModel {
    /// Forgets what a lost connection held that the next one must read again.
    pub fn reset_connection(&mut self)
        requires
            old(self)@.wf(),
        ensures
            final(self)@ == spec_reset(old(self)@),
            final(self)@.wf(),
    {
        self.reconcile_archives = self.threads.len() > 0;
        self.initialized = false;
        self.request_id = None;
        self.refresh_pending = false;
        self.refresh_notifications = Vec::new();
        self.last_messages = Vec::new();
        self.removed = Vec::new();
        assert(self@.refresh_notifications =~= Seq::<(Seq<char>, Notification)>::empty());
        assert(self@.last_messages =~= Seq::<(Seq<char>, String)>::empty());
        assert(self@.removed =~= Seq::<Seq<char>>::empty());
    }

    /// Starts a read of thread metadata, unless one is in flight (it is then
    /// asked to run again) or nothing needs reading.
    pub fn begin_refresh(&mut self) -> (res: Option<RefreshRequest>)
        requires
            old(self)@.wf(),
        ensures
            final(self)@.wf(),
            res is Some == spec_begin_sends(old(self)@),
            res is None ==> final(self)@ == spec_begin_unsent(old(self)@),
            match res {
                Some(r) => {
                    &&& final(self)@ == spec_begin_state(old(self)@, r.id@)
                    &&& r@ == spec_begin_request(old(self)@, r.id@)
                    &&& is_hyphenated_uuid(r.id@)
                },
                None => true,
            },
    {
        if self.request_id.is_some() {
            self.refresh_pending = true;
            return None;
        }
        let ghost m = self@;
        let mut ids: Vec<String> = Vec::new();
        std::mem::swap(&mut ids, &mut self.refresh_thread_ids);
        if !self.initialized {
            let n = self.threads.len();
            let mut i: usize = 0;
            while i < n
                invariant
                    n == self.threads@.len(),
                    self.threads == old(self).threads,
                    m == old(self)@,
                    i <= n,
                    keys_view(ids@) == keys_extend(
                        m.refresh_thread_ids,
                        keys_of(m.threads).take(i as int),
                    ),
                decreases n - i,
            {
                proof {
                    assert(keys_of(m.threads).take(i + 1).drop_last() =~= keys_of(m.threads).take(
                        i as int,
                    ));
                }
                let key = self.threads[i].id.clone();
                add_key(&mut ids, key);
                i += 1;
            }
            proof {
                assert(keys_of(m.threads).take(n as int) =~= keys_of(m.threads));
            }
        }
        proof {
            lemma_keys_extend_unique(m.refresh_thread_ids, keys_of(m.threads));
        }
        if self.initialized && ids.len() == 0 {
            self.refresh_thread_ids = ids;
            assert(self@ == m);
            return None;
        }
        let id = new_request_id();
        self.request_id = Some(id.clone());
        self.refresh_pending = false;
        let ghost wanted = begin_ids(m);
        let mut threads: Vec<Slot<Option<Thread>>> = Vec::new();
        let n = ids.len();
        let mut i: usize = 0;
        while i < n
            invariant
                n == ids@.len(),
                keys_view(ids@) == wanted,
                self.threads == old(self).threads,
                m == old(self)@,
                i <= n,
                slots_view(threads@) == request_threads(wanted.take(i as int), m.threads),
            decreases n - i,
        {
            let ghost k = ids@[i as int]@;
            assert(wanted[i as int] == k);
            assert(slots_view(self.threads@) == m.threads);
            let value = match get_slot(&self.threads, ids[i].as_str()) {
                Some(Some(t)) => Some(t.duplicate()),
                _ => None,
            };
            assert(value == flatten_thread(slot_get(m.threads, k)));
            let ghost before = slots_view(threads@);
            threads.push(Slot { id: ids[i].clone(), value });
            proof {
                assert(slots_view(threads@) =~= before.push((k, value)));
                assert(request_threads(wanted.take(i + 1), m.threads) =~= request_threads(
                    wanted.take(i as int),
                    m.threads,
                ).push((k, value)));
            }
            i += 1;
        }
        assert(wanted.take(n as int) =~= wanted);
        let mut known: Vec<String> = Vec::new();
        let n = self.threads.len();
        let mut i: usize = 0;
        while i < n
            invariant
                n == self.threads@.len(),
                self.threads == old(self).threads,
                m == old(self)@,
                i <= n,
                keys_view(known@) == known_keys(m.threads.take(i as int)),
            decreases n - i,
        {
            proof {
                assert(m.threads.take(i + 1).drop_last() =~= m.threads.take(i as int));
            }
            if self.threads[i].value.is_some() {
                let ghost before = keys_view(known@);
                known.push(self.threads[i].id.clone());
                assert(keys_view(known@) =~= before.push(m.threads[i as int].0));
            }
            i += 1;
        }
        assert(m.threads.take(n as int) =~= m.threads);
        let ghost known_threads = keys_view(known@);
        let n = self.removed.len();
        let mut i: usize = 0;
        while i < n
            invariant
                n == self.removed@.len(),
                self.removed == old(self).removed,
                m == old(self)@,
                i <= n,
                keys_view(known@) == known_threads + m.removed.take(i as int),
            decreases n - i,
        {
            let ghost before = keys_view(known@);
            assert(m.removed[i as int] == self.removed@[i as int]@);
            known.push(self.removed[i].clone());
            assert(keys_view(known@) =~= before.push(m.removed[i as int]));
            assert(known_threads + m.removed.take(i + 1) =~= (known_threads + m.removed.take(
                i as int,
            )).push(m.removed[i as int]));
            i += 1;
        }
        assert(m.removed.take(n as int) =~= m.removed);
        assert(self@.refresh_thread_ids =~= Seq::<Seq<char>>::empty());
        Some(
            RefreshRequest {
                id,
                discover: !self.initialized,
                reconcile_archives: self.reconcile_archives,
                threads,
                known_ids: known,
            },
        )
    }
}


impl AgentsModel {
    fn absorb_in(&mut self, refresh: AgentsRefresh) -> (res: Result<(), String>)
        requires
            old(self)@.wf(),
        ensures
            final(self)@ == absorb(old(self)@, refresh@),
            final(self)@.wf(),
            unit_result_view(res) == match refresh@.error {
                Some(e) => Err(e),
                None => Ok(()),
            },
    {
        let ghost m = self@;
        let ghost r = refresh@;
        self.initialized = refresh.recent_seed_complete;
        if self.initialized {
            self.reconcile_archives = false;
        }
        let ghost m0 = self@;
        let n = refresh.last_messages.len();
        let mut i: usize = 0;
        while i < n
            invariant
                n == refresh.last_messages@.len(),
                r == refresh@,
                i <= n,
                self@ == (AgentsModelV {
                    last_messages: put_all(m.last_messages, r.last_messages.take(i as int)),
                    ..m0
                }),
            decreases n - i,
        {
            proof {
                assert(r.last_messages.take(i + 1).drop_last() =~= r.last_messages.take(i as int));
            }
            let key = refresh.last_messages[i].id.clone();
            let text = refresh.last_messages[i].value.clone();
            put_slot(&mut self.last_messages, key, text);
            i += 1;
        }
        proof {
            assert(r.last_messages.take(n as int) =~= r.last_messages);
            lemma_put_all_unique(m.last_messages, r.last_messages);
        }
        let ghost m1 = self@;
        let n = refresh.removed.len();
        let mut i: usize = 0;
        while i < n
            invariant
                n == refresh.removed@.len(),
                r == refresh@,
                i <= n,
                self@ == remove_all(m1, r.removed.take(i as int)),
                self@.wf(),
            decreases n - i,
        {
            proof {
                assert(r.removed.take(i + 1).drop_last() =~= r.removed.take(i as int));
                lemma_remove_step_wf(self@, r.removed[i as int]);
            }
            let key = refresh.removed[i].clone();
            add_key(&mut self.removed, key);
            take_slot(&mut self.threads, refresh.removed[i].as_str());
            take_slot(&mut self.last_messages, refresh.removed[i].as_str());
            i += 1;
        }
        proof {
            assert(r.removed.take(n as int) =~= r.removed);
        }
        let ghost m2 = self@;
        let n = refresh.threads.len();
        let mut i: usize = 0;
        while i < n
            invariant
                n == refresh.threads@.len(),
                r == refresh@,
                i <= n,
                self@ == apply_records(m2, r.threads.take(i as int)),
                self@.wf(),
            decreases n - i,
        {
            proof {
                assert(r.threads.take(i + 1).drop_last() =~= r.threads.take(i as int));
                lemma_record_step_wf(self@, r.threads[i as int].0, r.threads[i as int].1);
            }
            let key = refresh.threads[i].id.as_str();
            if !has_key(&self.removed, key) {
                match &refresh.threads[i].value {
                    Some(t) => {
                        if t.ephemeral {
                            take_slot(&mut self.threads, key);
                            take_slot(&mut self.last_messages, key);
                        } else {
                            put_slot(&mut self.threads, String::from_str(key), Some(t.duplicate()));
                        }
                    },
                    None => {
                        if find_slot(&self.threads, key) >= self.threads.len() {
                            put_slot(&mut self.threads, String::from_str(key), None);
                        }
                    },
                }
            }
            i += 1;
        }
        proof {
            assert(r.threads.take(n as int) =~= r.threads);
        }
        match refresh.error {
            Some(e) => Err(e),
            None => Ok(()),
        }
    }

    /// Ends read `request_id` with what it brought back. A stale read changes
    /// nothing; otherwise what it read is taken in, the notifications that came
    /// meanwhile win over it, and the read's error, if any, is given back.
    pub fn finish_refresh(&mut self, request_id: &str, result: Result<AgentsRefresh, String>) -> (res:
        Result<(), String>)
        requires
            old(self)@.wf(),
        ensures
            final(self)@.wf(),
            (final(self)@, unit_result_view(res)) == spec_finish(
                old(self)@,
                request_id@,
                refresh_result_view(result),
            ),
    {
        let ghost m = self@;
        let current = match &self.request_id {
            Some(r) => str_is(r.as_str(), request_id),
            None => false,
        };
        if !current {
            return Ok(());
        }
        self.request_id = None;
        let mut pending: Vec<Slot<Notification>> = Vec::new();
        std::mem::swap(&mut pending, &mut self.refresh_notifications);
        assert(self@.refresh_notifications =~= Seq::<(Seq<char>, Notification)>::empty());
        let out = match result {
            Ok(refresh) => self.absorb_in(refresh),
            Err(e) => Err(e),
        };
        let ghost m1 = self@;
        let ghost ps = slots_view(pending@);
        let n = pending.len();
        let mut i: usize = 0;
        while i < n
            invariant
                n == pending@.len(),
                ps == slots_view(pending@),
                ps == m.refresh_notifications,
                i <= n,
                self@ == replay(m1, ps.take(i as int)),
                self@.wf(),
            decreases n - i,
        {
            proof {
                assert(ps.take(i + 1).drop_last() =~= ps.take(i as int));
                lemma_observe_wf(self@, ps[i as int].1);
            }
            self.observe(&pending[i].value);
            i += 1;
        }
        assert(ps.take(n as int) =~= ps);
        self.refresh_pending = self.refresh_thread_ids.len() > 0;
        out
    }
}


proof fn lemma_remove_all(m: AgentsModelV, ids: Seq<Seq<char>>)
    requires
        m.wf(),
    ensures
        remove_all(m, ids).wf(),
        forall|k: Seq<char>| key_in(m.removed, k) ==> #[trigger] key_in(remove_all(m, ids).removed, k),
    decreases ids.len(),
{
    if ids.len() > 0 {
        let r = remove_all(m, ids.drop_last());
        lemma_remove_all(m, ids.drop_last());
        lemma_remove_step_wf(r, ids.last());
        lemma_key_add(r.removed, ids.last());
    }
}

proof fn lemma_apply_records(m: AgentsModelV, recs: Seq<(Seq<char>, Option<Thread>)>)
    requires
        m.wf(),
    ensures
        apply_records(m, recs).wf(),
        apply_records(m, recs).removed == m.removed,
    decreases recs.len(),
{
    if recs.len() > 0 {
        lemma_apply_records(m, recs.drop_last());
        lemma_record_step_wf(apply_records(m, recs.drop_last()), recs.last().0, recs.last().1);
    }
}

/// What a read brings back never lists a thread archived or deleted before
/// it ended, nor takes it off the archived ones.
pub proof fn lemma_read_keeps_archived_unlisted(m: AgentsModelV, r: AgentsRefreshV, k: Seq<char>)
    requires
        m.wf(),
        key_in(m.removed, k),
    ensures
        absorb(m, r).wf(),
        key_in(absorb(m, r).removed, k),
        !slot_has(absorb(m, r).threads, k),
{
    lemma_put_all_unique(m.last_messages, r.last_messages);
    let m1 = AgentsModelV {
        initialized: r.recent_seed_complete,
        reconcile_archives: if r.recent_seed_complete {
            false
        } else {
            m.reconcile_archives
        },
        last_messages: put_all(m.last_messages, r.last_messages),
        ..m
    };
    lemma_remove_all(m1, r.removed);
    lemma_apply_records(remove_all(m1, r.removed), r.threads);
    assert(key_in(remove_all(m1, r.removed).removed, k));
    assert(key_in(absorb(m, r).removed, k));
}

/// Once a thread is archived or deleted, only its start or its unarchiving
/// is taken; anything else about it is refused and changes nothing.
pub proof fn lemma_archived_thread_refuses_updates(m: AgentsModelV, n: Notification, id: Seq<char>)
    requires
        key_in(m.removed, id),
        !(n is ThreadStarted),
        !(n is ThreadUnarchived),
        !(n is ThreadArchived),
        !(n is ThreadDeleted),
    ensures
        spec_observe_id(m, n, id) == (m, false),
{
}

/// Archiving or deleting a thread takes it off the list at once.
pub proof fn lemma_archive_unlists(m: AgentsModelV, n: Notification, id: Seq<char>)
    requires
        m.wf(),
        n is ThreadArchived || n is ThreadDeleted,
    ensures
        spec_observe_id(m, n, id).1,
        key_in(spec_observe_id(m, n, id).0.removed, id),
        !slot_has(spec_observe_id(m, n, id).0.threads, id),
{
    lemma_observe_id_wf(m, n, id);
    lemma_key_add(m.removed, id);
    lemma_record_wf(archive(m, id), n, id);
}

/// Unarchiving a thread lets reads list it again: it is no longer held as
/// archived or deleted.
pub proof fn lemma_unarchive_allows_listing(m: AgentsModelV, n: Notification, id: Seq<char>)
    requires
        m.wf(),
        n is ThreadUnarchived,
    ensures
        spec_observe_id(m, n, id).1,
        !key_in(spec_observe_id(m, n, id).0.removed, id),
{
    lemma_key_del(m.removed, id);
}

/// A read that is not the one in flight changes nothing and is answered `Ok`.
pub proof fn lemma_stale_read_ignored(
    m: AgentsModelV,
    request_id: Seq<char>,
    result: Result<AgentsRefreshV, Seq<char>>,
)
    requires
        m.request_id != Some(request_id),
    ensures
        spec_finish(m, request_id, result) == (m, Ok::<(), Seq<char>>(())),
{
}

proof fn lemma_observe_keeps_removed(m: AgentsModelV, n: Notification, k: Seq<char>)
    requires
        m.wf(),
        key_in(m.removed, k),
        !(n is ThreadStarted),
        !(n is ThreadUnarchived),
    ensures
        spec_observe(m, n).0.wf(),
        key_in(spec_observe(m, n).0.removed, k),
{
    lemma_observe_wf(m, n);
    if let Some(raw) = notification_thread_id(n) {
        if let Some(id) = uuid_text(raw) {
            lemma_key_add(m.removed, id);
            if let Some(m1) = spec_effect(m, n, id) {
                lemma_record_wf(m1, n, id);
            }
        }
    }
}

proof fn lemma_replay_keeps_removed(m: AgentsModelV, pending: Seq<(Seq<char>, Notification)>, k: Seq<char>)
    requires
        m.wf(),
        key_in(m.removed, k),
        forall|i: int|
            0 <= i < pending.len() ==> !((#[trigger] pending[i]).1 is ThreadStarted) && !(pending[i].1 is ThreadUnarchived),
    ensures
        replay(m, pending).wf(),
        key_in(replay(m, pending).removed, k),
    decreases pending.len(),
{
    if pending.len() > 0 {
        let rest = pending.drop_last();
        assert forall|i: int| 0 <= i < rest.len() implies !((#[trigger] rest[i]).1 is ThreadStarted) && !(
        rest[i].1 is ThreadUnarchived) by {
            assert(rest[i] == pending[i]);
        }
        lemma_replay_keeps_removed(m, rest, k);
        assert(pending.last() == pending[pending.len() - 1]);
        lemma_observe_keeps_removed(replay(m, rest), pending.last().1, k);
    }
}

/// Finishing a read never lists a thread that was archived or deleted before
/// it ended, unless a start or an unarchiving came in while it ran.
pub proof fn lemma_finish_keeps_archived_unlisted(
    m: AgentsModelV,
    request_id: Seq<char>,
    result: Result<AgentsRefreshV, Seq<char>>,
    k: Seq<char>,
)
    requires
        m.wf(),
        key_in(m.removed, k),
        forall|i: int|
            0 <= i < m.refresh_notifications.len() ==> !((#[trigger] m.refresh_notifications[i]).1 is ThreadStarted)
                && !(m.refresh_notifications[i].1 is ThreadUnarchived),
    ensures
        key_in(spec_finish(m, request_id, result).0.removed, k),
        !slot_has(spec_finish(m, request_id, result).0.threads, k),
{
    if m.request_id == Some(request_id) {
        let m0 = AgentsModelV { request_id: None, refresh_notifications: Seq::empty(), ..m };
        match result {
            Ok(r) => {
                lemma_read_keeps_archived_unlisted(m0, r, k);
                lemma_replay_keeps_removed(absorb(m0, r), m.refresh_notifications, k);
            },
            Err(_) => {
                lemma_replay_keeps_removed(m0, m.refresh_notifications, k);
            },
        }
    }
}

} // verus!
