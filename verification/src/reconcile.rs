//! Deciding, once per tick, which subscribers are owed a notification.
//!
//! A tick refreshes the node cache from a snapshot of the network and lists the
//! notices that are due. The caller sends each notice and settles it with the
//! outcome of the send: only a notice that was sent is recorded, so one that
//! failed is due again at the next tick.

use vstd::prelude::*;
use crate::action::Status;
use crate::store::{
    Monitor,
    MonitorView,
    Node,
    NodeView,
    Store,
    StoreView,
    lemma_with_node,
    monitor_views,
    node_views,
    same_text,
};

verus! {

/// The status of `node_id` in `snapshot`: that of the last node with this id,
/// which is the one that a refreshed cache holds, and offline where the
/// snapshot has none.
pub open spec fn observed(snapshot: Seq<NodeView>, node_id: Seq<char>) -> Status
    decreases snapshot.len(),
{
    if snapshot.len() == 0 {
        Status::Offline
    } else if snapshot.last().id == node_id {
        snapshot.last().current_status
    } else {
        observed(snapshot.drop_last(), node_id)
    }
}

/// Whether `snapshot` has a node with the id `node_id`.
pub open spec fn lists(snapshot: Seq<NodeView>, node_id: Seq<char>) -> bool {
    exists|k: int| 0 <= k < snapshot.len() && snapshot[k].id == node_id
}

/// A refreshed cache agrees with the snapshot: it holds every node of the
/// snapshot with the status that was observed, and what it held before for
/// every other node.
pub proof fn law_refreshed_cache(s: StoreView, snapshot: Seq<NodeView>, node_id: Seq<char>)
    requires
        s.wf(),
    ensures
        s.refreshed(snapshot).wf(),
        lists(snapshot, node_id) ==> s.refreshed(snapshot).cached(node_id) is Some
            && s.refreshed(snapshot).cached(node_id).unwrap().current_status == observed(
            snapshot,
            node_id,
        ),
        !lists(snapshot, node_id) ==> s.refreshed(snapshot).cached(node_id) == s.cached(node_id),
    decreases snapshot.len(),
{
    if snapshot.len() > 0 {
        let init = snapshot.drop_last();
        let last = snapshot.last();
        law_refreshed_cache(s, init, node_id);
        lemma_with_node(s.refreshed(init), last, node_id);
        if last.id == node_id {
            assert(snapshot[snapshot.len() - 1].id == node_id);
        } else {
            if lists(init, node_id) {
                let k = choose|k: int| 0 <= k < init.len() && init[k].id == node_id;
                assert(snapshot[k].id == node_id);
            }
            if lists(snapshot, node_id) {
                let k = choose|k: int| 0 <= k < snapshot.len() && snapshot[k].id == node_id;
                assert(init[k].id == node_id);
            }
        }
    }
}

/// A change of status that a subscriber is to be told of.
#[derive(Clone, Debug, PartialEq, Eq)]
pub struct Notice {
    pub monitor_id: u64,
    pub email: String,
    pub node_id: String,
    pub old_status: Status,
    pub new_status: Status,
}

/// The mathematical value of a [`Notice`].
pub ghost struct NoticeView {
    pub monitor_id: u64,
    pub email: Seq<char>,
    pub node_id: Seq<char>,
    pub old_status: Status,
    pub new_status: Status,
}

impl View for Notice {
    type V = NoticeView;

    open spec fn view(&self) -> NoticeView {
        NoticeView {
            monitor_id: self.monitor_id,
            email: self.email@,
            node_id: self.node_id@,
            old_status: self.old_status,
            new_status: self.new_status,
        }
    }
}

/// The values of a sequence of notices.
pub open spec fn notice_views(s: Seq<Notice>) -> Seq<NoticeView> {
    Seq::new(s.len(), |i: int| s[i]@)
}

/// The notice that `m` is owed under `snapshot`: one exactly when the observed
/// status of its node differs from the status it was last notified of.
pub open spec fn notice_for(m: MonitorView, snapshot: Seq<NodeView>) -> Option<NoticeView> {
    let now = observed(snapshot, m.node_id);
    if m.last_notified_status == now {
        None
    } else {
        Some(
            NoticeView {
                monitor_id: m.id,
                email: m.email,
                node_id: m.node_id,
                old_status: m.last_notified_status,
                new_status: now,
            },
        )
    }
}

/// The notices that `monitors` are owed under `snapshot`, in the monitors'
/// order.
pub open spec fn notices(monitors: Seq<MonitorView>, snapshot: Seq<NodeView>) -> Seq<NoticeView>
    decreases monitors.len(),
{
    if monitors.len() == 0 {
        Seq::empty()
    } else {
        let before = notices(monitors.drop_last(), snapshot);
        match notice_for(monitors.last(), snapshot) {
            Some(n) => before.push(n),
            None => before,
        }
    }
}

/// The store after a notice was settled: the notified status is recorded
/// exactly when the notice was sent.
pub open spec fn settled(s: StoreView, n: NoticeView, sent: bool) -> StoreView {
    if sent {
        s.notified(n.monitor_id, n.new_status)
    } else {
        s
    }
}

/// A notice that was sent is not due again: once it is settled as sent, its
/// monitor is recorded as notified of the observed status and is owed nothing
/// under the same snapshot, and every other monitor is as it was.
pub proof fn law_sent_notice_is_settled(s: StoreView, snapshot: Seq<NodeView>, i: int)
    requires
        s.wf(),
        0 <= i < s.monitors.len(),
        notice_for(s.monitors[i], snapshot) is Some,
    ensures
        ({
            let n = notice_for(s.monitors[i], snapshot).unwrap();
            let t = settled(s, n, true);
            &&& t.monitors.len() == s.monitors.len()
            &&& t.monitors[i].last_notified_status == observed(snapshot, s.monitors[i].node_id)
            &&& notice_for(t.monitors[i], snapshot) is None
            &&& forall|j: int|
                0 <= j < s.monitors.len() && j != i ==> t.monitors[j] == s.monitors[j]
            &&& t.wf()
        }),
{
    let n = notice_for(s.monitors[i], snapshot).unwrap();
    let t = settled(s, n, true);
    assert forall|j: int| 0 <= j < s.monitors.len() && j != i implies t.monitors[j]
        == s.monitors[j] by {
        if j < i {
            assert(s.monitors[j].id < s.monitors[i].id);
        } else {
            assert(s.monitors[i].id < s.monitors[j].id);
        }
    }
}

/// A notice whose send failed stays due: settling it as not sent leaves the
/// store as it was, so the same notices are owed under the same snapshot.
pub proof fn law_failed_notice_stays_due(s: StoreView, snapshot: Seq<NodeView>, n: NoticeView)
    ensures
        settled(s, n, false) == s,
        notices(settled(s, n, false).monitors, snapshot) == notices(s.monitors, snapshot),
{
}

/// A monitor that was notified of the observed status is owed a notice again
/// exactly when a later snapshot shows another status.
pub proof fn law_notice_per_transition(m: MonitorView, earlier: Seq<NodeView>, later: Seq<NodeView>)
    requires
        m.last_notified_status == observed(earlier, m.node_id),
    ensures
        notice_for(m, earlier) is None,
        notice_for(m, later) is Some <==> observed(later, m.node_id) != observed(
            earlier,
            m.node_id,
        ),
        notice_for(m, later) is Some ==> notice_for(m, later).unwrap().old_status == observed(
            earlier,
            m.node_id,
        ) && notice_for(m, later).unwrap().new_status == observed(later, m.node_id),
{
}

/// The status of `node_id` in `snapshot`, offline where the snapshot does not
/// have the node.
pub fn observed_status(snapshot: &Vec<Node>, node_id: &String) -> (r: Status)
    ensures
        r == observed(node_views(snapshot@), node_id@),
{
    let ghost views = node_views(snapshot@);
    let mut status = Status::Offline;
    let mut i: usize = 0;
    while i < snapshot.len()
        invariant
            i <= snapshot.len(),
            views == node_views(snapshot@),
            status == observed(views.subrange(0, i as int), node_id@),
        decreases snapshot.len() - i,
    {
        proof {
            assert(views.subrange(0, i + 1).drop_last() =~= views.subrange(0, i as int));
            assert(views.subrange(0, i + 1).last() == snapshot@[i as int]@);
        }
        if same_text(&snapshot[i].id, node_id) {
            status = snapshot[i].current_status;
        }
        i += 1;
    }
    proof {
        assert(views.subrange(0, i as int) =~= views);
    }
    status
}

/// The notice that `monitor` is owed under `snapshot`, if any.
pub fn notice_of(monitor: &Monitor, snapshot: &Vec<Node>) -> (r: Option<Notice>)
    ensures
        match r {
            Some(n) => notice_for(monitor@, node_views(snapshot@)) == Some(n@),
            None => notice_for(monitor@, node_views(snapshot@)) is None,
        },
{
    let now = observed_status(snapshot, &monitor.node_id);
    if monitor.last_notified_status == now {
        None
    } else {
        Some(
            Notice {
                monitor_id: monitor.id,
                email: monitor.email.clone(),
                node_id: monitor.node_id.clone(),
                old_status: monitor.last_notified_status,
                new_status: now,
            },
        )
    }
}

/// The notices that the monitors of `store` are owed under `snapshot`, in the
/// monitors' order.
pub fn pending(store: &Store, snapshot: &Vec<Node>) -> (r: Vec<Notice>)
    ensures
        notice_views(r@) == notices(store@.monitors, node_views(snapshot@)),
{
    let monitors = store.list_monitors();
    let ghost views = monitor_views(monitors@);
    let ghost nodes = node_views(snapshot@);
    let mut out: Vec<Notice> = Vec::new();
    let mut i: usize = 0;
    assert(notice_views(out@) =~= notices(views.subrange(0, 0), nodes));
    while i < monitors.len()
        invariant
            i <= monitors.len(),
            views == monitor_views(monitors@),
            nodes == node_views(snapshot@),
            notice_views(out@) == notices(views.subrange(0, i as int), nodes),
        decreases monitors.len() - i,
    {
        let ghost done = notice_views(out@);
        let owed = notice_of(&monitors[i], snapshot);
        proof {
            assert(views.subrange(0, i + 1).drop_last() =~= views.subrange(0, i as int));
            assert(views.subrange(0, i + 1).last() == monitors@[i as int]@);
        }
        match owed {
            Some(n) => {
                out.push(n);
                proof {
                    assert(notice_views(out@) =~= done.push(n@));
                }
            },
            None => {},
        }
        i += 1;
    }
    proof {
        assert(views.subrange(0, i as int) =~= views);
    }
    out
}

/// Starts a tick: refreshes the node cache from `snapshot` and lists the
/// notices that are due. No monitor changes.
pub fn begin_tick(store: &mut Store, snapshot: &Vec<Node>) -> (r: Vec<Notice>)
    requires
        old(store)@.wf(),
    ensures
        final(store)@ == old(store)@.refreshed(node_views(snapshot@)),
        final(store)@.wf(),
        notice_views(r@) == notices(old(store)@.monitors, node_views(snapshot@)),
{
    store.refresh_nodes(snapshot);
    proof {
        lemma_refreshed_monitors(old(store)@, node_views(snapshot@));
    }
    pending(store, snapshot)
}

/// Refreshing the node cache changes no monitor.
pub proof fn lemma_refreshed_monitors(s: StoreView, snapshot: Seq<NodeView>)
    ensures
        s.refreshed(snapshot).monitors == s.monitors,
        s.refreshed(snapshot).next_id == s.next_id,
    decreases snapshot.len(),
{
    if snapshot.len() > 0 {
        lemma_refreshed_monitors(s, snapshot.drop_last());
    }
}

/// Settles `notice` with the outcome of its send: the new status is recorded
/// as notified exactly when the notice was sent.
pub fn settle(store: &mut Store, notice: &Notice, sent: bool)
    requires
        old(store)@.wf(),
    ensures
        final(store)@ == settled(old(store)@, notice@, sent),
        final(store)@.wf(),
{
    if sent {
        let _found = store.update_last_notified(notice.monitor_id, notice.new_status);
    }
}

} // verus!
