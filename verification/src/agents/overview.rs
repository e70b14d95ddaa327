//! When the dashboard reads thread metadata, and what it forgets of a
//! thread's activity.

use crate::agents::model::{keys_extend, keys_of, AgentsModel, AgentsModelV, Notification};
use crate::agents::table::{add_key, keys_unique, keys_view};
use vstd::prelude::*;

verus! {

/// Changed threads are read again only while the dashboard is shown and
/// the model has begun reading.
pub fn should_refresh_changed(visible: bool, initialized: bool, read_in_flight: bool) -> (res: bool)
    ensures
        res == (visible && (initialized || read_in_flight)),
{
    visible && (initialized || read_in_flight)
}

/// A read starts while the dashboard is shown; while hidden, only the first
/// discovery on a shared server runs.
pub fn may_start_refresh(visible: bool, initialized: bool, embedded: bool) -> (res: bool)
    ensures
        res == (visible || !(initialized || embedded)),
{
    visible || !(initialized || embedded)
}

/// What a notification does to the activity the dashboard shows for a thread.
#[derive(Clone, Copy, Debug, PartialEq, Eq, Structural)]
pub enum ActivityChange {
    Keep,
    Forget,
    /// Forget it and draw the dashboard again.
    ForgetAndRepaint,
}

/// Archived, deleted or closed threads lose their activity; a reverted one
/// too, and the dashboard is drawn again.
pub fn activity_change(n: &Notification) -> (res: ActivityChange)
    ensures
        (n is ThreadArchived || n is ThreadDeleted || n is ThreadClosed) ==> res
            == ActivityChange::Forget,
        n is ThreadReverted ==> res == ActivityChange::ForgetAndRepaint,
        !(n is ThreadArchived || n is ThreadDeleted || n is ThreadClosed || n is ThreadReverted)
            ==> res == ActivityChange::Keep,
{
    match n {
        Notification::ThreadArchived { .. } => ActivityChange::Forget,
        Notification::ThreadDeleted { .. } => ActivityChange::Forget,
        Notification::ThreadClosed { .. } => ActivityChange::Forget,
        Notification::ThreadReverted { .. } => ActivityChange::ForgetAndRepaint,
        _ => ActivityChange::Keep,
    }
}

proof fn lemma_keys_extend_unique(ids: Seq<Seq<char>>, more: Seq<Seq<char>>)
    requires
        keys_unique(ids),
    ensures
        keys_unique(keys_extend(ids, more)),
    decreases more.len(),
{
    if more.len() > 0 {
        lemma_keys_extend_unique(ids, more.drop_last());
        crate::agents::table::lemma_key_add(keys_extend(ids, more.drop_last()), more.last());
    }
}

impl AgentsModel {
    /// Marks every held thread to be read again.
    pub fn mark_all_for_refresh(&mut self)
        requires
            old(self)@.wf(),
        ensures
            final(self)@ == (AgentsModelV {
                refresh_thread_ids: keys_extend(old(self)@.refresh_thread_ids, keys_of(old(self)@.threads)),
                ..old(self)@
            }),
            final(self)@.wf(),
    {
        let ghost m = self@;
        let n = self.threads.len();
        let mut i: usize = 0;
        while i < n
            invariant
                n == self.threads@.len(),
                m == old(self)@,
                i <= n,
                self.threads == old(self).threads,
                self.last_messages == old(self).last_messages,
                self.initialized == old(self).initialized,
                self.request_id == old(self).request_id,
                self.refresh_pending == old(self).refresh_pending,
                self.refresh_notifications == old(self).refresh_notifications,
                self.removed == old(self).removed,
                self.reconcile_archives == old(self).reconcile_archives,
                keys_view(self.refresh_thread_ids@) == keys_extend(
                    m.refresh_thread_ids,
                    keys_of(m.threads).take(i as int),
                ),
            decreases n - i,
        {
            proof {
                assert(keys_of(m.threads).take(i + 1).drop_last() =~= keys_of(m.threads).take(i as int));
            }
            let key = self.threads[i].id.clone();
            add_key(&mut self.refresh_thread_ids, key);
            i += 1;
        }
        proof {
            assert(keys_of(m.threads).take(n as int) =~= keys_of(m.threads));
            lemma_keys_extend_unique(m.refresh_thread_ids, keys_of(m.threads));
        }
    }
}

} // verus!
