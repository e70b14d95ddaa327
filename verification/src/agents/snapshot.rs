//! A complete snapshot of the agents dashboard: each root thread with its
//! descendants as one session, with the state the dashboard shows for it.

use crate::agents::table::{
    get_slot, has_key, key_in, keys_view, lemma_key_in, slot_get, slots_view, Slot,
};
use crate::agents::thread::{
    clone_opt_string, display_title, group_rank, parent_id, spec_display_title, spec_group_for_status,
    spec_parent_id, AgentsOverviewGroup, Thread, ThreadStatus,
};
use crate::text::opt_string_view;
use crate::text::{
    chars_le, lemma_chars_le_antisymmetric, lemma_chars_le_total, lemma_chars_le_transitive,
    str_is, str_le,
};
use vstd::prelude::*;

verus! {

/// `a` is listed before `b`: its id sorts strictly before.
pub open spec fn id_before(a: Thread, b: Thread) -> bool {
    chars_le(a.id@, b.id@) && a.id@ != b.id@
}

/// Threads in strictly ascending id order.
pub open spec fn by_id_sorted(s: Seq<Thread>) -> bool {
    forall|i: int, j: int| 0 <= i < j < s.len() ==> id_before(#[trigger] s[i], #[trigger] s[j])
}

/// `s` with `x` in its place by id, replacing a thread with the same id.
pub open spec fn insert_by_id(x: Thread, s: Seq<Thread>) -> Seq<Thread>
    decreases s.len(),
{
    if s.len() == 0 {
        seq![x]
    } else if x.id@ == s[0].id@ {
        seq![x] + s.drop_first()
    } else if chars_le(x.id@, s[0].id@) {
        seq![x] + s
    } else {
        seq![s[0]] + insert_by_id(x, s.drop_first())
    }
}

/// The threads whose metadata is known, by id (a later one wins), in id order.
pub open spec fn listed_threads(s: Seq<(Seq<char>, Option<Thread>)>) -> Seq<Thread>
    decreases s.len(),
{
    if s.len() == 0 {
        Seq::empty()
    } else {
        let rest = listed_threads(s.drop_last());
        match s.last().1 {
            Some(t) => insert_by_id(t, rest),
            None => rest,
        }
    }
}

proof fn lemma_insert_by_id_at(x: Thread, s: Seq<Thread>, k: int)
    requires
        0 <= k <= s.len(),
        forall|j: int|
            0 <= j < k ==> (#[trigger] s[j]).id@ != x.id@ && !chars_le(x.id@, s[j].id@),
        k < s.len() ==> (s[k].id@ == x.id@ || chars_le(x.id@, s[k].id@)),
    ensures
        insert_by_id(x, s) == if k < s.len() && s[k].id@ == x.id@ {
            s.update(k, x)
        } else {
            s.insert(k, x)
        },
    decreases s.len(),
{
    if s.len() == 0 {
        assert(s.insert(0, x) =~= seq![x]);
    } else if k == 0 {
        if s[0].id@ == x.id@ {
            assert(s.update(0, x) =~= seq![x] + s.drop_first());
        } else {
            assert(s.insert(0, x) =~= seq![x] + s);
        }
    } else {
        let t = s.drop_first();
        assert forall|j: int| 0 <= j < k - 1 implies (#[trigger] t[j]).id@ != x.id@ && !chars_le(
            x.id@,
            t[j].id@,
        ) by {
            assert(t[j] == s[j + 1]);
        }
        lemma_insert_by_id_at(x, t, k - 1);
        if k < s.len() && s[k].id@ == x.id@ {
            assert(seq![s[0]] + t.update(k - 1, x) =~= s.update(k, x));
        } else {
            assert(seq![s[0]] + t.insert(k - 1, x) =~= s.insert(k, x));
        }
    }
}

proof fn lemma_insert_keeps_sorted(x: Thread, s: Seq<Thread>, k: int)
    requires
        by_id_sorted(s),
        0 <= k <= s.len(),
        forall|j: int|
            0 <= j < k ==> (#[trigger] s[j]).id@ != x.id@ && !chars_le(x.id@, s[j].id@),
        k < s.len() ==> (s[k].id@ == x.id@ || chars_le(x.id@, s[k].id@)),
    ensures
        by_id_sorted(
            if k < s.len() && s[k].id@ == x.id@ {
                s.update(k, x)
            } else {
                s.insert(k, x)
            },
        ),
{
    if k < s.len() && s[k].id@ == x.id@ {
        let r = s.update(k, x);
        assert forall|i: int, j: int| 0 <= i < j < r.len() implies id_before(
            #[trigger] r[i],
            #[trigger] r[j],
        ) by {
            assert(id_before(s[i], s[j]));
        }
    } else {
        let r = s.insert(k, x);
        assert forall|j: int| 0 <= j < k implies id_before(#[trigger] s[j], x) by {
            lemma_chars_le_total(x.id@, s[j].id@);
        }
        assert forall|j: int| k <= j < s.len() implies id_before(x, #[trigger] s[j]) by {
            if j > k {
                assert(id_before(s[k], s[j]));
                lemma_chars_le_transitive(x.id@, s[k].id@, s[j].id@);
                if x.id@ == s[j].id@ {
                    lemma_chars_le_antisymmetric(x.id@, s[k].id@);
                }
            }
        }
        assert forall|i: int, j: int| 0 <= i < j < r.len() implies id_before(
            #[trigger] r[i],
            #[trigger] r[j],
        ) by {
            if i < k && j < k {
                assert(id_before(s[i], s[j]));
            } else if i < k && j == k {
            } else if i < k {
                assert(id_before(s[i], s[j - 1]));
            } else if i == k {
            } else {
                assert(id_before(s[i - 1], s[j - 1]));
            }
        }
    }
}

/// Puts `x` in its place by id.
fn insert_thread_by_id(sorted: &mut Vec<Thread>, x: Thread)
    requires
        by_id_sorted(old(sorted)@),
    ensures
        final(sorted)@ == insert_by_id(x, old(sorted)@),
        by_id_sorted(final(sorted)@),
{
    let m = sorted.len();
    let mut k: usize = 0;
    while k < m && !str_is(sorted[k].id.as_str(), x.id.as_str()) && !str_le(
        x.id.as_str(),
        sorted[k].id.as_str(),
    )
        invariant
            m == sorted@.len(),
            k <= m,
            forall|j: int|
                0 <= j < k ==> (#[trigger] sorted@[j]).id@ != x.id@ && !chars_le(
                    x.id@,
                    sorted@[j].id@,
                ),
        decreases m - k,
    {
        k += 1;
    }
    proof {
        lemma_insert_by_id_at(x, sorted@, k as int);
        lemma_insert_keeps_sorted(x, sorted@, k as int);
    }
    if k < m && str_is(sorted[k].id.as_str(), x.id.as_str()) {
        sorted.remove(k);
        sorted.insert(k, x);
        proof {
            assert(sorted@ =~= old(sorted)@.update(k as int, x));
        }
    } else {
        sorted.insert(k, x);
    }
}

/// The threads whose metadata is known, in id order, one per id.
pub fn list_threads(threads: &Vec<Slot<Option<Thread>>>) -> (res: Vec<Thread>)
    ensures
        res@ == listed_threads(slots_view(threads@)),
        by_id_sorted(res@),
{
    let ghost s = slots_view(threads@);
    let mut out: Vec<Thread> = Vec::new();
    let n = threads.len();
    let mut i: usize = 0;
    while i < n
        invariant
            n == threads@.len(),
            s == slots_view(threads@),
            i <= n,
            out@ == listed_threads(s.take(i as int)),
            by_id_sorted(out@),
        decreases n - i,
    {
        proof {
            assert(s.take(i + 1).drop_last() =~= s.take(i as int));
            assert(s.take(i + 1).last() == s[i as int]);
        }
        match &threads[i].value {
            Some(t) => {
                insert_thread_by_id(&mut out, t.duplicate());
            },
            None => {},
        }
        i += 1;
    }
    assert(s.take(n as int) =~= s);
    out
}


/// The position of the thread with id `id` at or after `i`, or the length.
pub open spec fn thread_pos(ts: Seq<Thread>, id: Seq<char>, i: int) -> int
    decreases ts.len() - i,
{
    if i < 0 || i >= ts.len() {
        ts.len() as int
    } else if ts[i].id@ == id {
        i
    } else {
        thread_pos(ts, id, i + 1)
    }
}

/// The thread with id `id`.
pub open spec fn lookup_thread(ts: Seq<Thread>, id: Seq<char>) -> Option<Thread> {
    let p = thread_pos(ts, id, 0);
    if p < ts.len() {
        Some(ts[p])
    } else {
        None
    }
}

/// The top of `cur`'s ancestry in `ts`: its parents are followed while they
/// are listed. `seen` holds the ids met so far; meeting one again is a cycle,
/// and gives none. Each step meets a new id of `ts`, so `fuel` starting at
/// the number of threads never runs out first.
pub open spec fn walk(ts: Seq<Thread>, cur: Thread, seen: Seq<Seq<char>>, fuel: nat) -> Option<Thread>
    decreases fuel,
{
    match spec_parent_id(cur) {
        None => Some(cur),
        Some(p) => match lookup_thread(ts, p) {
            None => Some(cur),
            Some(a) => if seen.contains(a.id@) || fuel == 0 {
                None
            } else {
                walk(ts, a, seen.push(a.id@), (fuel - 1) as nat)
            },
        },
    }
}

/// The walk from `cur` reaches a new id when its fuel is spent.
pub open spec fn walk_exhausts(ts: Seq<Thread>, cur: Thread, seen: Seq<Seq<char>>, fuel: nat) -> bool
    decreases fuel,
{
    match spec_parent_id(cur) {
        None => false,
        Some(p) => match lookup_thread(ts, p) {
            None => false,
            Some(a) => if seen.contains(a.id@) {
                false
            } else if fuel == 0 {
                true
            } else {
                walk_exhausts(ts, a, seen.push(a.id@), (fuel - 1) as nat)
            },
        },
    }
}

proof fn lemma_walk_fuel(ts: Seq<Thread>, cur: Thread, seen: Seq<Seq<char>>, fuel: nat)
    requires
        seen.no_duplicates(),
        forall|k: int| 0 <= k < seen.len() ==> ts.map_values(|t: Thread| t.id@).contains(#[trigger] seen[k]),
        seen.len() + fuel == ts.len(),
    ensures
        !walk_exhausts(ts, cur, seen, fuel),
    decreases fuel,
{
    let ids = ts.map_values(|t: Thread| t.id@);
    if let Some(p) = spec_parent_id(cur) {
        if let Some(a) = lookup_thread(ts, p) {
            if !seen.contains(a.id@) {
                lemma_thread_pos(ts, p, 0);
                let q = thread_pos(ts, p, 0);
                assert(ids[q] == a.id@);
                let seen2 = seen.push(a.id@);
                assert(seen2.no_duplicates()) by {
                    assert forall|i: int, j: int| 0 <= i < seen2.len() && 0 <= j < seen2.len() && i != j implies seen2[i] != seen2[j] by {
                        if i < seen.len() && j < seen.len() {
                        } else if i < seen.len() {
                            assert(seen.contains(seen[i]));
                        } else {
                            assert(seen.contains(seen[j]));
                        }
                    }
                }
                assert forall|k: int| 0 <= k < seen2.len() implies ids.contains(#[trigger] seen2[k]) by {
                    if k < seen.len() {
                        assert(ids.contains(seen[k]));
                    }
                }
                if fuel == 0 {
                    seen2.unique_seq_to_set();
                    ids.lemma_cardinality_of_set();
                    vstd::seq_lib::seq_to_set_is_finite(ids);
                    assert(seen2.to_set().subset_of(ids.to_set())) by {
                        assert forall|x: Seq<char>| seen2.to_set().contains(x) implies ids.to_set().contains(x) by {
                            let k = choose|k: int| 0 <= k < seen2.len() && seen2[k] == x;
                            assert(ids.contains(seen2[k]));
                        }
                    }
                    vstd::set_lib::lemma_len_subset(seen2.to_set(), ids.to_set());
                    assert(false);
                } else {
                    lemma_walk_fuel(ts, a, seen2, (fuel - 1) as nat);
                }
            }
        }
    }
}

/// A family walk starting at a listed thread, with fuel the number of
/// threads, never runs out of fuel: each step meets an id not met before.
pub proof fn lemma_root_walk_never_exhausts(ts: Seq<Thread>, i: int)
    requires
        0 <= i < ts.len(),
    ensures
        !walk_exhausts(ts, ts[i], seq![ts[i].id@], ts.len() as nat),
{
    let ids = ts.map_values(|t: Thread| t.id@);
    assert(ids[i] == ts[i].id@);
    assert(seq![ts[i].id@].no_duplicates());
    assert forall|k: int| 0 <= k < 1 implies ids.contains(#[trigger] seq![ts[i].id@][k]) by {
        assert(ids[i] == seq![ts[i].id@][k]);
    }
    lemma_walk_fuel(ts, ts[i], seq![ts[i].id@], (ts.len() - 1) as nat);
    lemma_walk_exhausts_fuel(ts, ts[i], seq![ts[i].id@], (ts.len() - 1) as nat);
}

proof fn lemma_walk_exhausts_fuel(ts: Seq<Thread>, cur: Thread, seen: Seq<Seq<char>>, fuel: nat)
    ensures
        !walk_exhausts(ts, cur, seen, fuel) ==> !walk_exhausts(ts, cur, seen, fuel + 1),
    decreases fuel,
{
    if let Some(p) = spec_parent_id(cur) {
        if let Some(a) = lookup_thread(ts, p) {
            if !seen.contains(a.id@) && fuel > 0 {
                lemma_walk_exhausts_fuel(ts, a, seen.push(a.id@), (fuel - 1) as nat);
            }
        }
    }
}

/// The root of `t`'s family, or none when its ancestry has a cycle.
pub open spec fn root_of(ts: Seq<Thread>, t: Thread) -> Option<Thread> {
    walk(ts, t, seq![t.id@], ts.len() as nat)
}

/// No listed thread's ancestry has a cycle.
pub open spec fn acyclic(ts: Seq<Thread>) -> bool {
    forall|i: int| 0 <= i < ts.len() ==> (#[trigger] root_of(ts, ts[i])) is Some
}

/// The threads without a parent, in order: one session each.
pub open spec fn roots(ts: Seq<Thread>) -> Seq<Thread>
    decreases ts.len(),
{
    if ts.len() == 0 {
        Seq::empty()
    } else {
        let rest = roots(ts.drop_last());
        if spec_parent_id(ts.last()) is None {
            rest.push(ts.last())
        } else {
            rest
        }
    }
}

fn find_thread(ts: &Vec<Thread>, id: &str) -> (res: usize)
    ensures
        res == thread_pos(ts@, id@, 0),
{
    let n = ts.len();
    let mut i: usize = 0;
    while i < n
        invariant
            n == ts@.len(),
            i <= n,
            thread_pos(ts@, id@, 0) == thread_pos(ts@, id@, i as int),
        decreases n - i,
    {
        if str_is(ts[i].id.as_str(), id) {
            return i;
        }
        i += 1;
    }
    n
}

proof fn lemma_thread_pos(ts: Seq<Thread>, id: Seq<char>, i: int)
    requires
        0 <= i <= ts.len(),
    ensures
        i <= thread_pos(ts, id, i) <= ts.len(),
        thread_pos(ts, id, i) < ts.len() ==> ts[thread_pos(ts, id, i)].id@ == id,
    decreases ts.len() - i,
{
    if i < ts.len() && ts[i].id@ != id {
        lemma_thread_pos(ts, id, i + 1);
    }
}

/// The position of the root of `ts[i]`'s family, or none on a cycle.
fn root_index(ts: &Vec<Thread>, i: usize) -> (res: Option<usize>)
    requires
        i < ts.len(),
    ensures
        match res {
            Some(r) => r < ts.len() && root_of(ts@, ts@[i as int]) == Some(ts@[r as int]),
            None => root_of(ts@, ts@[i as int]) is None,
        },
{
    let mut cur = i;
    let mut seen: Vec<String> = Vec::new();
    seen.push(ts[i].id.clone());
    assert(keys_view(seen@) =~= seq![ts@[i as int].id@]);
    let mut fuel = ts.len();
    loop
        invariant
            cur < ts.len(),
            fuel <= ts.len(),
            root_of(ts@, ts@[i as int]) == walk(ts@, ts@[cur as int], keys_view(seen@), fuel as nat),
        decreases fuel,
    {
        let p = match parent_id(&ts[cur]) {
            Some(p) => p,
            None => return Some(cur),
        };
        let a = find_thread(ts, p.as_str());
        proof {
            lemma_thread_pos(ts@, p@, 0);
        }
        if a >= ts.len() {
            return Some(cur);
        }
        proof {
            lemma_key_in(keys_view(seen@), ts@[a as int].id@);
        }
        if has_key(&seen, ts[a].id.as_str()) || fuel == 0 {
            return None;
        }
        let ghost before = keys_view(seen@);
        seen.push(ts[a].id.clone());
        assert(keys_view(seen@) =~= before.push(ts@[a as int].id@));
        fuel -= 1;
        cur = a;
    }
}

/// The state a session reports of its family.
#[derive(Clone, Debug, PartialEq, Eq)]
pub enum FamilyFlag {
    /// Some thread is running with nothing to wait on.
    Working,
    /// Some thread waits on an approval.
    Approval,
    /// Some thread waits on user input.
    UserInput,
    /// Some thread stopped on an error.
    Error,
    /// Some thread is loaded.
    Loaded,
}

pub open spec fn status_has(s: ThreadStatus, f: FamilyFlag) -> bool {
    match f {
        FamilyFlag::Working => s matches ThreadStatus::Active {
            waiting_on_approval: false,
            waiting_on_user_input: false,
        },
        FamilyFlag::Approval => s matches ThreadStatus::Active { waiting_on_approval: true, .. },
        FamilyFlag::UserInput => s matches ThreadStatus::Active { waiting_on_user_input: true, .. },
        FamilyFlag::Error => s is SystemError,
        FamilyFlag::Loaded => !(s is NotLoaded),
    }
}

/// `t` belongs to the family of root `r`.
pub open spec fn in_family(ts: Seq<Thread>, r: Thread, t: Thread) -> bool {
    root_of(ts, t) == Some(r)
}

/// Some thread among the first `n` of the family of `r` has the flag.
pub open spec fn family_has(ts: Seq<Thread>, r: Thread, f: FamilyFlag, n: int) -> bool {
    exists|j: int| 0 <= j < n && #[trigger] in_family(ts, r, ts[j]) && status_has(ts[j].status, f)
}

/// The more urgent of two groups.
pub open spec fn lower_group(a: AgentsOverviewGroup, b: AgentsOverviewGroup) -> AgentsOverviewGroup {
    if group_rank(b) < group_rank(a) {
        b
    } else {
        a
    }
}

/// The most urgent group among the first `n` threads of the family of `r`.
pub open spec fn family_status(ts: Seq<Thread>, r: Thread, n: int) -> AgentsOverviewGroup
    decreases n,
{
    if n <= 0 {
        AgentsOverviewGroup::Finished
    } else {
        let acc = family_status(ts, r, n - 1);
        if in_family(ts, r, ts[n - 1]) {
            lower_group(acc, spec_group_for_status(ts[n - 1].status))
        } else {
            acc
        }
    }
}

/// What a session lists as needing attention, in this order.
pub open spec fn attention_of(approval: bool, user_input: bool, error: bool) -> Seq<Seq<char>> {
    (if approval {
        seq!["approval"@]
    } else {
        Seq::empty()
    }) + (if user_input {
        seq!["userInput"@]
    } else {
        Seq::empty()
    }) + (if error {
        seq!["error"@]
    } else {
        Seq::empty()
    })
}

/// Where a repository keeps its shared data, and where a checkout sits in it.
#[derive(Clone, Debug, PartialEq, Eq)]
pub struct RepositoryIdentity {
    pub common_dir: String,
    pub relative_cwd: String,
    pub primary_root: String,
}

/// The project a session is grouped under.
#[derive(Clone, Debug, PartialEq, Eq)]
pub struct ProjectGroup {
    pub key_dir: String,
    pub key_relative: String,
    pub heading: String,
}

/// `std::path::Path::join` of two paths, as text.
pub uninterp spec fn path_joined(base: Seq<char>, rest: Seq<char>) -> Seq<char>;

/// Joins two paths (`std::path::Path::join`).
#[verifier::external_body]
fn join_path(base: &str, rest: &str) -> (res: String)
    ensures
        res@ == path_joined(base@, rest@),
{
    std::path::Path::new(base).join(rest).to_string_lossy().into_owned()
}

/// The project of a thread in `cwd`: with worktree grouping and a known
/// repository, the repository's common directory and the checkout's place in
/// it, headed by the primary checkout's path there; else the directory itself.
pub open spec fn spec_project(cwd: Seq<char>, worktrees_enabled: bool, identity: Option<RepositoryIdentity>) -> (
    Seq<char>,
    Seq<char>,
    Seq<char>,
) {
    match identity {
        Some(id) => if worktrees_enabled {
            (id.common_dir@, id.relative_cwd@, path_joined(id.primary_root@, id.relative_cwd@))
        } else {
            (cwd, Seq::empty(), cwd)
        },
        None => (cwd, Seq::empty(), cwd),
    }
}

impl ProjectGroup {
    pub open spec fn view_parts(self) -> (Seq<char>, Seq<char>, Seq<char>) {
        (self.key_dir@, self.key_relative@, self.heading@)
    }

    pub fn for_thread(cwd: &str, worktrees_enabled: bool, identity: Option<&RepositoryIdentity>) -> (res:
        ProjectGroup)
        ensures
            res.view_parts() == spec_project(
                cwd@,
                worktrees_enabled,
                match identity {
                    Some(i) => Some(*i),
                    None => None,
                },
            ),
    {
        match identity {
            Some(id) => {
                if worktrees_enabled {
                    return ProjectGroup {
                        key_dir: id.common_dir.clone(),
                        key_relative: id.relative_cwd.clone(),
                        heading: join_path(id.primary_root.as_str(), id.relative_cwd.as_str()),
                    };
                }
            },
            None => {},
        }
        ProjectGroup {
            key_dir: String::from_str(cwd),
            key_relative: String::new(),
            heading: String::from_str(cwd),
        }
    }
}

/// One session of the snapshot: a root thread and its descendants.
#[derive(Clone, Debug, PartialEq, Eq)]
pub struct AgentsSession {
    pub id: String,
    pub title: String,
    pub cwd: String,
    pub name: Option<String>,
    pub preview: String,
    pub created_at: i64,
    pub updated_at: i64,
    pub recency_at: Option<i64>,
    pub git_info_json: Option<String>,
    /// The most urgent group of any thread in the family.
    pub status: AgentsOverviewGroup,
    pub root_status: ThreadStatus,
    pub project: ProjectGroup,
    pub loaded: bool,
    pub working: bool,
    pub attention: Vec<String>,
}

/// A complete snapshot.
#[derive(Clone, Debug, PartialEq, Eq)]
pub struct AgentsSnapshot {
    pub total: usize,
    pub working: usize,
    pub needs_attention: usize,
    pub sessions: Vec<AgentsSession>,
}

/// `s` is the session of root `r` among `ts`, grouped under `project`.
pub open spec fn session_of(
    s: AgentsSession,
    ts: Seq<Thread>,
    r: Thread,
    project: (Seq<char>, Seq<char>, Seq<char>),
) -> bool {
    &&& s.id@ == r.id@
    &&& s.title@ == spec_display_title(r)
    &&& s.cwd@ == r.cwd@
    &&& opt_string_view(s.name) == opt_string_view(r.name)
    &&& s.preview@ == r.preview@
    &&& s.created_at == r.created_at
    &&& s.updated_at == r.updated_at
    &&& s.recency_at == r.recency_at
    &&& opt_string_view(s.git_info_json) == opt_string_view(r.git_info_json)
    &&& s.status == family_status(ts, r, ts.len() as int)
    &&& s.root_status == r.status
    &&& s.project.view_parts() == project
    &&& s.loaded == family_has(ts, r, FamilyFlag::Loaded, ts.len() as int)
    &&& s.working == family_has(ts, r, FamilyFlag::Working, ts.len() as int)
    &&& keys_view(s.attention@) == attention_of(
        family_has(ts, r, FamilyFlag::Approval, ts.len() as int),
        family_has(ts, r, FamilyFlag::UserInput, ts.len() as int),
        family_has(ts, r, FamilyFlag::Error, ts.len() as int),
    )
}

pub open spec fn count_working(s: Seq<AgentsSession>) -> nat
    decreases s.len(),
{
    if s.len() == 0 {
        0
    } else {
        count_working(s.drop_last()) + if s.last().working {
            1nat
        } else {
            0nat
        }
    }
}

pub open spec fn count_attention(s: Seq<AgentsSession>) -> nat
    decreases s.len(),
{
    if s.len() == 0 {
        0
    } else {
        count_attention(s.drop_last()) + if s.last().attention@.len() > 0 {
            1nat
        } else {
            0nat
        }
    }
}


/// The snapshot of the listed threads `ts`.
pub open spec fn snapshot_of(
    snap: AgentsSnapshot,
    ts: Seq<Thread>,
    worktrees_enabled: bool,
    identities: Seq<(Seq<char>, RepositoryIdentity)>,
) -> bool {
    let rs = roots(ts);
    &&& snap.sessions@.len() == rs.len()
    &&& forall|i: int|
        0 <= i < rs.len() ==> session_of(
            #[trigger] snap.sessions@[i],
            ts,
            rs[i],
            spec_project(rs[i].cwd@, worktrees_enabled, slot_get(identities, rs[i].cwd@)),
        )
    &&& snap.total == rs.len()
    &&& snap.working == count_working(snap.sessions@)
    &&& snap.needs_attention == count_attention(snap.sessions@)
}

proof fn lemma_family_has_step(ts: Seq<Thread>, r: Thread, f: FamilyFlag, j: int)
    requires
        0 <= j < ts.len(),
    ensures
        family_has(ts, r, f, j + 1) == (family_has(ts, r, f, j) || (in_family(ts, r, ts[j])
            && status_has(ts[j].status, f))),
{
    if in_family(ts, r, ts[j]) && status_has(ts[j].status, f) {
        assert(family_has(ts, r, f, j + 1));
    }
    if family_has(ts, r, f, j + 1) {
        let k = choose|k: int|
            0 <= k < j + 1 && #[trigger] in_family(ts, r, ts[k]) && status_has(ts[k].status, f);
        if k < j {
            assert(family_has(ts, r, f, j));
        }
    }
}

/// The session of the root at `r`, given the root of each listed thread.
fn family_session(ts: &Vec<Thread>, root_idx: &Vec<usize>, r: usize, project: ProjectGroup) -> (res:
    AgentsSession)
    requires
        r < ts.len(),
        root_idx@.len() == ts@.len(),
        by_id_sorted(ts@),
        forall|j: int|
            0 <= j < ts.len() ==> #[trigger] root_idx@[j] < ts.len() && root_of(ts@, ts@[j]) == Some(
                ts@[root_idx@[j] as int],
            ),
    ensures
        session_of(res, ts@, ts@[r as int], project.view_parts()),
{
    let ghost root = ts@[r as int];
    let n = ts.len();
    let mut status = AgentsOverviewGroup::Finished;
    let mut working = false;
    let mut approval = false;
    let mut user_input = false;
    let mut error = false;
    let mut loaded = false;
    let mut j: usize = 0;
    while j < n
        invariant
            n == ts@.len(),
            j <= n,
            r < n,
            root == ts@[r as int],
            root_idx@.len() == n,
            by_id_sorted(ts@),
            forall|k: int|
                0 <= k < ts.len() ==> #[trigger] root_idx@[k] < ts.len() && root_of(ts@, ts@[k])
                    == Some(ts@[root_idx@[k] as int]),
            status == family_status(ts@, root, j as int),
            working == family_has(ts@, root, FamilyFlag::Working, j as int),
            approval == family_has(ts@, root, FamilyFlag::Approval, j as int),
            user_input == family_has(ts@, root, FamilyFlag::UserInput, j as int),
            error == family_has(ts@, root, FamilyFlag::Error, j as int),
            loaded == family_has(ts@, root, FamilyFlag::Loaded, j as int),
        decreases n - j,
    {
        let member = root_idx[j] == r;
        proof {
            let rj = root_idx@[j as int] as int;
            assert(root_idx@[j as int] < ts.len());
            if rj != r {
                if rj < r {
                    assert(id_before(ts@[rj], ts@[r as int]));
                } else {
                    assert(id_before(ts@[r as int], ts@[rj]));
                }
            }
            assert(member == in_family(ts@, root, ts@[j as int]));
            lemma_family_has_step(ts@, root, FamilyFlag::Working, j as int);
            lemma_family_has_step(ts@, root, FamilyFlag::Approval, j as int);
            lemma_family_has_step(ts@, root, FamilyFlag::UserInput, j as int);
            lemma_family_has_step(ts@, root, FamilyFlag::Error, j as int);
            lemma_family_has_step(ts@, root, FamilyFlag::Loaded, j as int);
        }
        if member {
            let g = AgentsOverviewGroup::for_status(&ts[j].status);
            if g.precedes(status) {
                status = g;
            }
            match ts[j].status {
                ThreadStatus::Active { waiting_on_approval, waiting_on_user_input } => {
                    if !waiting_on_approval && !waiting_on_user_input {
                        working = true;
                    }
                    if waiting_on_approval {
                        approval = true;
                    }
                    if waiting_on_user_input {
                        user_input = true;
                    }
                    loaded = true;
                },
                ThreadStatus::SystemError => {
                    error = true;
                    loaded = true;
                },
                ThreadStatus::Idle => {
                    loaded = true;
                },
                ThreadStatus::NotLoaded => {},
            }
        }
        j += 1;
    }
    let mut attention: Vec<String> = Vec::new();
    if approval {
        attention.push(String::from_str("approval"));
    }
    let ghost a1 = keys_view(attention@);
    assert(a1 =~= if approval {
        seq!["approval"@]
    } else {
        Seq::<Seq<char>>::empty()
    });
    if user_input {
        attention.push(String::from_str("userInput"));
    }
    let ghost a2 = keys_view(attention@);
    assert(a2 =~= a1 + if user_input {
        seq!["userInput"@]
    } else {
        Seq::<Seq<char>>::empty()
    });
    if error {
        attention.push(String::from_str("error"));
    }
    assert(keys_view(attention@) =~= a2 + if error {
        seq!["error"@]
    } else {
        Seq::<Seq<char>>::empty()
    });
    let t = &ts[r];
    AgentsSession {
        id: t.id.clone(),
        title: display_title(t),
        cwd: t.cwd.clone(),
        name: clone_opt_string(&t.name),
        preview: t.preview.clone(),
        created_at: t.created_at,
        updated_at: t.updated_at,
        recency_at: t.recency_at,
        git_info_json: clone_opt_string(&t.git_info_json),
        status,
        root_status: t.status,
        project,
        loaded,
        working,
        attention,
    }
}

/// The snapshot of the model's threads: each thread without a parent heads
/// a session of the threads whose ancestry leads to it (a thread whose
/// ancestry ends at an unlisted parent belongs to none). A cycle in any
/// ancestry fails the snapshot.
pub fn snapshot(
    threads: &Vec<Slot<Option<Thread>>>,
    worktrees_enabled: bool,
    identities: &Vec<Slot<RepositoryIdentity>>,
) -> (res: Result<AgentsSnapshot, String>)
    ensures
        res is Err <==> !acyclic(listed_threads(slots_view(threads@))),
        res matches Err(e) ==> e@ == "cyclic agents ancestry"@,
        res matches Ok(snap) ==> snapshot_of(
            snap,
            listed_threads(slots_view(threads@)),
            worktrees_enabled,
            slots_view(identities@),
        ),
{
    let ts = list_threads(threads);
    let n = ts.len();
    let mut root_idx: Vec<usize> = Vec::new();
    let mut i: usize = 0;
    while i < n
        invariant
            n == ts@.len(),
            ts@ == listed_threads(slots_view(threads@)),
            i <= n,
            root_idx@.len() == i,
            forall|j: int|
                0 <= j < i ==> #[trigger] root_idx@[j] < ts.len() && root_of(ts@, ts@[j]) == Some(
                    ts@[root_idx@[j] as int],
                ),
        decreases n - i,
    {
        match root_index(&ts, i) {
            Some(r) => {
                root_idx.push(r);
            },
            None => {
                assert(!acyclic(ts@)) by {
                    assert(!(root_of(ts@, ts@[i as int]) is Some));
                }
                return Err(String::from_str("cyclic agents ancestry"));
            },
        }
        i += 1;
    }
    assert(acyclic(ts@)) by {
        assert forall|j: int| 0 <= j < ts.len() implies (#[trigger] root_of(ts@, ts@[j])) is Some by {
            assert(root_idx@[j] < ts.len());
        }
    }
    let ghost idv = slots_view(identities@);
    let mut sessions: Vec<AgentsSession> = Vec::new();
    let mut working: usize = 0;
    let mut needs_attention: usize = 0;
    let mut i: usize = 0;
    while i < n
        invariant
            n == ts@.len(),
            i <= n,
            root_idx@.len() == n,
            by_id_sorted(ts@),
            idv == slots_view(identities@),
            forall|j: int|
                0 <= j < ts.len() ==> #[trigger] root_idx@[j] < ts.len() && root_of(ts@, ts@[j])
                    == Some(ts@[root_idx@[j] as int]),
            sessions@.len() == roots(ts@.take(i as int)).len(),
            sessions@.len() <= i,
            forall|k: int|
                0 <= k < sessions@.len() ==> session_of(
                    #[trigger] sessions@[k],
                    ts@,
                    roots(ts@.take(i as int))[k],
                    spec_project(
                        roots(ts@.take(i as int))[k].cwd@,
                        worktrees_enabled,
                        slot_get(idv, roots(ts@.take(i as int))[k].cwd@),
                    ),
                ),
            working == count_working(sessions@),
            needs_attention == count_attention(sessions@),
            working <= sessions@.len(),
            needs_attention <= sessions@.len(),
        decreases n - i,
    {
        proof {
            assert(ts@.take(i + 1).drop_last() =~= ts@.take(i as int));
            assert(ts@.take(i + 1).last() == ts@[i as int]);
        }
        if parent_id(&ts[i]).is_none() {
            let identity = get_slot(identities, ts[i].cwd.as_str());
            let project = ProjectGroup::for_thread(ts[i].cwd.as_str(), worktrees_enabled, identity);
            let s = family_session(&ts, &root_idx, i, project);
            if s.working {
                working += 1;
            }
            if s.attention.len() > 0 {
                needs_attention += 1;
            }
            let ghost before = sessions@;
            sessions.push(s);
            proof {
                assert(sessions@.drop_last() =~= before);
            }
        }
        i += 1;
    }
    assert(ts@.take(n as int) =~= ts@);
    let total = sessions.len();
    Ok(AgentsSnapshot { total, working, needs_attention, sessions })
}

proof fn lemma_family_status_flags(ts: Seq<Thread>, r: Thread, n: int)
    requires
        0 <= n <= ts.len(),
    ensures
        family_status(ts, r, n) == if family_has(ts, r, FamilyFlag::Approval, n) || family_has(
            ts,
            r,
            FamilyFlag::UserInput,
            n,
        ) || family_has(ts, r, FamilyFlag::Error, n) {
            AgentsOverviewGroup::NeedsYou
        } else if family_has(ts, r, FamilyFlag::Working, n) {
            AgentsOverviewGroup::Working
        } else if family_has(ts, r, FamilyFlag::Loaded, n) {
            AgentsOverviewGroup::Ready
        } else {
            AgentsOverviewGroup::Finished
        },
    decreases n,
{
    if n > 0 {
        lemma_family_status_flags(ts, r, n - 1);
        lemma_family_has_step(ts, r, FamilyFlag::Approval, n - 1);
        lemma_family_has_step(ts, r, FamilyFlag::UserInput, n - 1);
        lemma_family_has_step(ts, r, FamilyFlag::Error, n - 1);
        lemma_family_has_step(ts, r, FamilyFlag::Working, n - 1);
        lemma_family_has_step(ts, r, FamilyFlag::Loaded, n - 1);
    } else {
        assert(!family_has(ts, r, FamilyFlag::Approval, 0));
        assert(!family_has(ts, r, FamilyFlag::UserInput, 0));
        assert(!family_has(ts, r, FamilyFlag::Error, 0));
        assert(!family_has(ts, r, FamilyFlag::Working, 0));
        assert(!family_has(ts, r, FamilyFlag::Loaded, 0));
    }
}

/// A session's status agrees with what it reports of its family: it needs
/// the user exactly when it lists something needing attention (an approval,
/// user input or an error); otherwise it is working when a thread runs,
/// ready when a thread is loaded, and finished when none is.
pub proof fn lemma_session_status_matches_attention(
    s: AgentsSession,
    ts: Seq<Thread>,
    r: Thread,
    project: (Seq<char>, Seq<char>, Seq<char>),
)
    requires
        session_of(s, ts, r, project),
    ensures
        s.status == AgentsOverviewGroup::NeedsYou <==> s.attention@.len() > 0,
        s.status == AgentsOverviewGroup::Working <==> (s.attention@.len() == 0 && s.working),
        s.status == AgentsOverviewGroup::Ready <==> (s.attention@.len() == 0 && !s.working && s.loaded),
        s.status == AgentsOverviewGroup::Finished <==> !s.loaded,
{
    lemma_family_status_flags(ts, r, ts.len() as int);
    assert(s.attention@.len() == keys_view(s.attention@).len());
    if family_has(ts, r, FamilyFlag::Approval, ts.len() as int) || family_has(ts, r, FamilyFlag::UserInput, ts.len() as int)
        || family_has(ts, r, FamilyFlag::Error, ts.len() as int) {
        let j = choose|j: int| 0 <= j < ts.len() && #[trigger] in_family(ts, r, ts[j]) && (status_has(
            ts[j].status,
            FamilyFlag::Approval,
        ) || status_has(ts[j].status, FamilyFlag::UserInput) || status_has(ts[j].status, FamilyFlag::Error));
        assert(status_has(ts[j].status, FamilyFlag::Loaded));
    }
    if family_has(ts, r, FamilyFlag::Working, ts.len() as int) {
        let j = choose|j: int| 0 <= j < ts.len() && #[trigger] in_family(ts, r, ts[j]) && status_has(
            ts[j].status,
            FamilyFlag::Working,
        );
        assert(status_has(ts[j].status, FamilyFlag::Loaded));
    }
}

} // verus!
