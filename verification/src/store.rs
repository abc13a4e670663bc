//! The persisted subscriptions and the cache of node statuses.

use vstd::prelude::*;
use crate::action::Status;

verus! {

/// A subscription: `email` is told when the status of `node_id` changes.
#[derive(Clone, Debug, PartialEq, Eq)]
pub struct Monitor {
    pub id: u64,
    pub email: String,
    pub node_id: String,
    pub last_notified_status: Status,
}

/// The mathematical value of a [`Monitor`].
pub ghost struct MonitorView {
    pub id: u64,
    pub email: Seq<char>,
    pub node_id: Seq<char>,
    pub last_notified_status: Status,
}

impl View for Monitor {
    type V = MonitorView;

    open spec fn view(&self) -> MonitorView {
        MonitorView {
            id: self.id,
            email: self.email@,
            node_id: self.node_id@,
            last_notified_status: self.last_notified_status,
        }
    }
}

/// A node of the network as it was last observed.
#[derive(Clone, Debug, PartialEq, Eq)]
pub struct Node {
    pub id: String,
    pub name: String,
    pub current_status: Status,
}

/// The mathematical value of a [`Node`].
pub ghost struct NodeView {
    pub id: Seq<char>,
    pub name: Seq<char>,
    pub current_status: Status,
}

impl View for Node {
    type V = NodeView;

    open spec fn view(&self) -> NodeView {
        NodeView { id: self.id@, name: self.name@, current_status: self.current_status }
    }
}

/// The values of a sequence of monitors.
pub open spec fn monitor_views(s: Seq<Monitor>) -> Seq<MonitorView> {
    Seq::new(s.len(), |i: int| s[i]@)
}

/// The values of a sequence of nodes.
pub open spec fn node_views(s: Seq<Node>) -> Seq<NodeView> {
    Seq::new(s.len(), |i: int| s[i]@)
}

/// Why the store could not do what was asked.
#[derive(Clone, Copy, Debug, PartialEq, Eq, Structural)]
pub enum StoreError {
    /// Every monitor id has been given out.
    IdsExhausted,
}

/// The mathematical value of a [`Store`].
pub ghost struct StoreView {
    pub monitors: Seq<MonitorView>,
    pub nodes: Seq<NodeView>,
    pub next_id: u64,
}

impl StoreView {
    /// The store that holds nothing and gives out `next_id` first.
    pub open spec fn empty(next_id: u64) -> StoreView {
        StoreView { monitors: Seq::empty(), nodes: Seq::empty(), next_id }
    }

    /// Whether monitor `i` binds `email` to `node_id`.
    pub open spec fn binds(self, i: int, email: Seq<char>, node_id: Seq<char>) -> bool {
        0 <= i < self.monitors.len() && self.monitors[i].email == email && self.monitors[i].node_id
            == node_id
    }

    /// Whether some monitor binds `email` to `node_id`.
    pub open spec fn watches(self, email: Seq<char>, node_id: Seq<char>) -> bool {
        exists|i: int| self.binds(i, email, node_id)
    }

    /// The monitors stand in the order of their ids, no two of them bind the
    /// same address to the same node, every id is older than the next one to be
    /// given out, and no two cached nodes share an id.
    pub open spec fn wf(self) -> bool {
        &&& forall|i: int, j: int|
            0 <= i < j < self.monitors.len() ==> self.monitors[i].id < self.monitors[j].id && !(
            self.monitors[i].email == self.monitors[j].email && self.monitors[i].node_id
                == self.monitors[j].node_id)
        &&& forall|i: int| 0 <= i < self.monitors.len() ==> self.monitors[i].id < self.next_id
        &&& forall|i: int, j: int|
            0 <= i < j < self.nodes.len() ==> self.nodes[i].id != self.nodes[j].id
    }

    /// The store that holds exactly these rows.
    pub open spec fn of_rows(
        monitors: Seq<MonitorView>,
        nodes: Seq<NodeView>,
        next_id: u64,
    ) -> StoreView {
        StoreView { monitors, nodes, next_id }
    }

    /// The store with a new monitor behind the others.
    pub open spec fn with_monitor(
        self,
        email: Seq<char>,
        node_id: Seq<char>,
        status: Status,
    ) -> StoreView {
        StoreView {
            monitors: self.monitors.push(
                MonitorView { id: self.next_id, email, node_id, last_notified_status: status },
            ),
            nodes: self.nodes,
            next_id: (self.next_id + 1) as u64,
        }
    }

    /// The store without the monitor that binds `email` to `node_id`.
    pub open spec fn without_monitor(self, email: Seq<char>, node_id: Seq<char>) -> StoreView {
        let i = choose|i: int| self.binds(i, email, node_id);
        StoreView { monitors: self.monitors.remove(i), nodes: self.nodes, next_id: self.next_id }
    }

    /// Whether some monitor has the id `monitor_id`.
    pub open spec fn has_monitor(self, monitor_id: u64) -> bool {
        exists|i: int| 0 <= i < self.monitors.len() && self.monitors[i].id == monitor_id
    }

    /// The store in which the monitor `monitor_id` was last notified of
    /// `status`.
    pub open spec fn notified(self, monitor_id: u64, status: Status) -> StoreView {
        StoreView {
            monitors: Seq::new(
                self.monitors.len(),
                |i: int|
                    if self.monitors[i].id == monitor_id {
                        MonitorView { last_notified_status: status, ..self.monitors[i] }
                    } else {
                        self.monitors[i]
                    },
            ),
            nodes: self.nodes,
            next_id: self.next_id,
        }
    }

    /// Whether a node with the id `node_id` is cached.
    pub open spec fn has_node(self, node_id: Seq<char>) -> bool {
        exists|i: int| 0 <= i < self.nodes.len() && self.nodes[i].id == node_id
    }

    /// The store whose cache holds `node`: in the place of the cached node with
    /// its id, or behind the others where there was none.
    pub open spec fn with_node(self, node: NodeView) -> StoreView {
        StoreView {
            monitors: self.monitors,
            nodes: if self.has_node(node.id) {
                Seq::new(
                    self.nodes.len(),
                    |i: int|
                        if self.nodes[i].id == node.id {
                            node
                        } else {
                            self.nodes[i]
                        },
                )
            } else {
                self.nodes.push(node)
            },
            next_id: self.next_id,
        }
    }

    /// The cached node with the id `node_id`, if there is one.
    pub open spec fn cached(self, node_id: Seq<char>) -> Option<NodeView> {
        if self.has_node(node_id) {
            Some(
                self.nodes[choose|i: int|
                    0 <= i < self.nodes.len() && self.nodes[i].id == node_id],
            )
        } else {
            None
        }
    }

    /// The store whose cache holds each node of `snapshot`, taken in order.
    pub open spec fn refreshed(self, snapshot: Seq<NodeView>) -> StoreView
        decreases snapshot.len(),
    {
        if snapshot.len() == 0 {
            self
        } else {
            self.refreshed(snapshot.drop_last()).with_node(snapshot.last())
        }
    }
}

/// In a well-formed store at most one monitor binds an address to a node.
pub proof fn lemma_one_binding(s: StoreView, i: int, j: int, email: Seq<char>, node_id: Seq<char>)
    requires
        s.wf(),
        s.binds(i, email, node_id),
        s.binds(j, email, node_id),
    ensures
        i == j,
{
    if i < j {
        assert(!(s.monitors[i].email == s.monitors[j].email && s.monitors[i].node_id
            == s.monitors[j].node_id));
    } else if j < i {
        assert(!(s.monitors[j].email == s.monitors[i].email && s.monitors[j].node_id
            == s.monitors[i].node_id));
    }
}

/// Adding a monitor for a binding that the store lacks keeps it well-formed,
/// and the store then has the binding.
pub proof fn lemma_with_monitor(s: StoreView, email: Seq<char>, node_id: Seq<char>, status: Status)
    requires
        s.wf(),
        !s.watches(email, node_id),
        s.next_id < u64::MAX,
    ensures
        s.with_monitor(email, node_id, status).wf(),
        s.with_monitor(email, node_id, status).watches(email, node_id),
{
    let t = s.with_monitor(email, node_id, status);
    let last = s.monitors.len() as int;
    assert(t.binds(last, email, node_id));
    assert forall|i: int, j: int| 0 <= i < j < t.monitors.len() implies t.monitors[i].id
        < t.monitors[j].id && !(t.monitors[i].email == t.monitors[j].email
        && t.monitors[i].node_id == t.monitors[j].node_id) by {
        if j == last {
            assert(!s.binds(i, email, node_id));
        }
    }
}

/// Removing the monitor of a binding keeps the store well-formed, and the
/// store then lacks the binding.
pub proof fn lemma_without_monitor(s: StoreView, email: Seq<char>, node_id: Seq<char>)
    requires
        s.wf(),
        s.watches(email, node_id),
    ensures
        s.without_monitor(email, node_id).wf(),
        !s.without_monitor(email, node_id).watches(email, node_id),
{
    let t = s.without_monitor(email, node_id);
    let k = choose|i: int| s.binds(i, email, node_id);
    assert forall|i: int| 0 <= i < t.monitors.len() implies t.monitors[i] == s.monitors[if i
        < k {
        i
    } else {
        i + 1
    }] by {}
    assert forall|i: int| !t.binds(i, email, node_id) by {
        if t.binds(i, email, node_id) {
            let o = if i < k {
                i
            } else {
                i + 1
            };
            assert(s.binds(o, email, node_id));
            lemma_one_binding(s, o, k, email, node_id);
        }
    }
    assert forall|i: int, j: int| 0 <= i < j < t.monitors.len() implies t.monitors[i].id
        < t.monitors[j].id && !(t.monitors[i].email == t.monitors[j].email
        && t.monitors[i].node_id == t.monitors[j].node_id) by {
        let oi = if i < k {
            i
        } else {
            i + 1
        };
        let oj = if j < k {
            j
        } else {
            j + 1
        };
        assert(s.monitors[oi].id < s.monitors[oj].id);
    }
}

/// Putting a node into the cache keeps the store well-formed; the cache then
/// holds that node under its id, and what it held under other ids.
pub proof fn lemma_with_node(s: StoreView, node: NodeView, other: Seq<char>)
    requires
        s.wf(),
    ensures
        s.with_node(node).wf(),
        s.with_node(node).cached(node.id) == Some(node),
        other != node.id ==> s.with_node(node).cached(other) == s.cached(other),
{
    let t = s.with_node(node);
    if s.has_node(node.id) {
        let k = choose|i: int| 0 <= i < s.nodes.len() && s.nodes[i].id == node.id;
        assert(t.nodes.len() == s.nodes.len());
        assert forall|i: int| 0 <= i < t.nodes.len() implies #[trigger] t.nodes[i].id
            == s.nodes[i].id by {}
        assert(t.nodes[k].id == node.id);
    } else {
        let k = s.nodes.len() as int;
        assert(t.nodes[k] == node);
        assert forall|i: int| 0 <= i < s.nodes.len() implies #[trigger] t.nodes[i]
            == s.nodes[i] && s.nodes[i].id != node.id by {}
    }
    assert(t.has_node(node.id));
    let c = choose|i: int| 0 <= i < t.nodes.len() && t.nodes[i].id == node.id;
    assert(t.nodes[c] == node);
    if other != node.id {
        if s.has_node(other) {
            let j = choose|i: int| 0 <= i < s.nodes.len() && s.nodes[i].id == other;
            assert(t.nodes[j] == s.nodes[j]);
            assert(t.has_node(other));
            let j2 = choose|i: int| 0 <= i < t.nodes.len() && t.nodes[i].id == other;
            assert(j2 < s.nodes.len());
            assert(s.nodes[j2].id == other);
            if j2 < j {
                assert(s.nodes[j2].id != s.nodes[j].id);
            } else if j < j2 {
                assert(s.nodes[j].id != s.nodes[j2].id);
            }
        } else {
            if t.has_node(other) {
                let j2 = choose|i: int| 0 <= i < t.nodes.len() && t.nodes[i].id == other;
                assert(j2 < s.nodes.len());
                assert(s.nodes[j2].id == other);
            }
        }
    }
}

/// Whether two texts are the same.
pub fn same_text(a: &String, b: &String) -> (r: bool)
    ensures
        r == (a@ == b@),
{
    *a == *b
}

impl Monitor {
    /// A monitor with the same value.
    pub fn copy(&self) -> (r: Monitor)
        ensures
            r@ == self@,
    {
        Monitor {
            id: self.id,
            email: self.email.clone(),
            node_id: self.node_id.clone(),
            last_notified_status: self.last_notified_status,
        }
    }
}

impl Node {
    /// A node with the same value.
    pub fn copy(&self) -> (r: Node)
        ensures
            r@ == self@,
    {
        Node {
            id: self.id.clone(),
            name: self.name.clone(),
            current_status: self.current_status,
        }
    }
}

/// The monitors of `email` among `monitors`, in their order.
pub open spec fn monitors_of(monitors: Seq<MonitorView>, email: Seq<char>) -> Seq<MonitorView>
    decreases monitors.len(),
{
    if monitors.len() == 0 {
        Seq::empty()
    } else if monitors.last().email == email {
        monitors_of(monitors.drop_last(), email).push(monitors.last())
    } else {
        monitors_of(monitors.drop_last(), email)
    }
}

/// Whether the monitors stand in the order of their ids, all below `next_id`.
pub open spec fn ids_ordered(monitors: Seq<MonitorView>, next_id: u64) -> bool {
    &&& forall|i: int, j: int| 0 <= i < j < monitors.len() ==> monitors[i].id < monitors[j].id
    &&& forall|i: int| 0 <= i < monitors.len() ==> monitors[i].id < next_id
}

/// Whether no two monitors bind the same address to the same node.
pub open spec fn bindings_distinct(monitors: Seq<MonitorView>) -> bool {
    forall|i: int, j: int|
        0 <= i < j < monitors.len() ==> !(monitors[i].email == monitors[j].email
            && monitors[i].node_id == monitors[j].node_id)
}

/// Whether no two nodes share an id.
pub open spec fn node_ids_distinct(nodes: Seq<NodeView>) -> bool {
    forall|i: int, j: int| 0 <= i < j < nodes.len() ==> nodes[i].id != nodes[j].id
}

/// Checks that the monitors stand in the order of their ids, all below
/// `next_id`.
pub fn check_ids_ordered(monitors: &Vec<Monitor>, next_id: u64) -> (r: bool)
    ensures
        r == ids_ordered(monitor_views(monitors@), next_id),
{
    let ghost views = monitor_views(monitors@);
    let mut i: usize = 0;
    while i < monitors.len()
        invariant
            i <= monitors.len(),
            views == monitor_views(monitors@),
            ids_ordered(views.subrange(0, i as int), next_id),
        decreases monitors.len() - i,
    {
        let ghost done = views.subrange(0, i as int);
        if monitors[i].id >= next_id {
            assert(views[i as int].id >= next_id);
            return false;
        }
        if i > 0 && monitors[i - 1].id >= monitors[i].id {
            assert(!(views[i - 1].id < views[i as int].id));
            return false;
        }
        i += 1;
        proof {
            let now = views.subrange(0, i as int);
            assert forall|a: int, b: int| 0 <= a < b < now.len() implies now[a].id
                < now[b].id by {
                if b < i - 1 {
                    assert(done[a].id < done[b].id);
                } else if a < i - 2 {
                    assert(done[a].id < done[i - 2].id);
                }
            }
            assert forall|a: int| 0 <= a < now.len() implies now[a].id < next_id by {
                if a < i - 1 {
                    assert(done[a].id < next_id);
                }
            }
        }
    }
    proof {
        assert(views.subrange(0, i as int) =~= views);
    }
    true
}

/// Checks that no two monitors bind the same address to the same node.
pub fn check_bindings_distinct(monitors: &Vec<Monitor>) -> (r: bool)
    ensures
        r == bindings_distinct(monitor_views(monitors@)),
{
    let ghost views = monitor_views(monitors@);
    let mut j: usize = 0;
    while j < monitors.len()
        invariant
            j <= monitors.len(),
            views == monitor_views(monitors@),
            forall|a: int, b: int|
                0 <= a < b < j ==> !(views[a].email == views[b].email && views[a].node_id
                    == views[b].node_id),
        decreases monitors.len() - j,
    {
        let mut i: usize = 0;
        while i < j
            invariant
                i <= j < monitors.len(),
                views == monitor_views(monitors@),
                forall|a: int|
                    0 <= a < i ==> !(views[a].email == views[j as int].email && views[a].node_id
                        == views[j as int].node_id),
            decreases j - i,
        {
            if same_text(&monitors[i].email, &monitors[j].email) && same_text(
                &monitors[i].node_id,
                &monitors[j].node_id,
            ) {
                assert(views[i as int].email == views[j as int].email && views[i as int].node_id
                    == views[j as int].node_id);
                return false;
            }
            i += 1;
        }
        j += 1;
    }
    true
}

/// Checks that no two nodes share an id.
pub fn check_node_ids_distinct(nodes: &Vec<Node>) -> (r: bool)
    ensures
        r == node_ids_distinct(node_views(nodes@)),
{
    let ghost views = node_views(nodes@);
    let mut j: usize = 0;
    while j < nodes.len()
        invariant
            j <= nodes.len(),
            views == node_views(nodes@),
            forall|a: int, b: int| 0 <= a < b < j ==> views[a].id != views[b].id,
        decreases nodes.len() - j,
    {
        let mut i: usize = 0;
        while i < j
            invariant
                i <= j < nodes.len(),
                views == node_views(nodes@),
                forall|a: int| 0 <= a < i ==> views[a].id != views[j as int].id,
            decreases j - i,
        {
            if same_text(&nodes[i].id, &nodes[j].id) {
                assert(views[i as int].id == views[j as int].id);
                return false;
            }
            i += 1;
        }
        j += 1;
    }
    true
}

/// The subscriptions and the node cache, as one unit of persisted state.
#[derive(Clone, Debug, PartialEq, Eq)]
pub struct Store {
    monitors: Vec<Monitor>,
    nodes: Vec<Node>,
    next_id: u64,
}

impl View for Store {
    type V = StoreView;

    closed spec fn view(&self) -> StoreView {
        StoreView {
            monitors: monitor_views(self.monitors@),
            nodes: node_views(self.nodes@),
            next_id: self.next_id,
        }
    }
}

impl Store {
    /// A store that holds nothing. Its first monitor gets the id 1.
    pub fn new() -> (s: Store)
        ensures
            s@ == StoreView::empty(1),
            s@.wf(),
    {
        let s = Store { monitors: Vec::new(), nodes: Vec::new(), next_id: 1 };
        assert(s@.monitors =~= Seq::empty() && s@.nodes =~= Seq::empty());
        s
    }

    /// A store that holds nothing. Its first monitor gets the id `next_id`.
    pub fn starting_at(next_id: u64) -> (s: Store)
        ensures
            s@ == StoreView::empty(next_id),
            s@.wf(),
    {
        let s = Store { monitors: Vec::new(), nodes: Vec::new(), next_id };
        assert(s@.monitors =~= Seq::empty() && s@.nodes =~= Seq::empty());
        s
    }

    /// The store that holds exactly these rows, or nothing where the rows are
    /// not well-formed.
    pub fn restore(monitors: Vec<Monitor>, nodes: Vec<Node>, next_id: u64) -> (r: Option<Store>)
        ensures
            r is Some <==> StoreView::of_rows(
                monitor_views(monitors@),
                node_views(nodes@),
                next_id,
            ).wf(),
            r is Some ==> r.unwrap()@ == StoreView::of_rows(
                monitor_views(monitors@),
                node_views(nodes@),
                next_id,
            ),
    {
        let ghost rows = StoreView::of_rows(monitor_views(monitors@), node_views(nodes@), next_id);
        let ordered = check_ids_ordered(&monitors, next_id);
        let distinct = check_bindings_distinct(&monitors);
        let nodes_distinct = check_node_ids_distinct(&nodes);
        proof {
            assert(rows.wf() <==> ids_ordered(rows.monitors, next_id) && bindings_distinct(
                rows.monitors,
            ) && node_ids_distinct(rows.nodes));
        }
        if ordered && distinct && nodes_distinct {
            Some(Store { monitors, nodes, next_id })
        } else {
            None
        }
    }

    /// Every monitor, oldest first.
    pub fn list_monitors(&self) -> (r: &Vec<Monitor>)
        ensures
            monitor_views(r@) == self@.monitors,
    {
        &self.monitors
    }

    /// Every cached node.
    pub fn list_nodes(&self) -> (r: &Vec<Node>)
        ensures
            node_views(r@) == self@.nodes,
    {
        &self.nodes
    }

    /// The monitors of `email`, oldest first.
    pub fn watched_by(&self, email: &String) -> (r: Vec<Monitor>)
        ensures
            monitor_views(r@) == monitors_of(self@.monitors, email@),
    {
        let ghost views = monitor_views(self.monitors@);
        let mut out: Vec<Monitor> = Vec::new();
        let mut i: usize = 0;
        assert(monitor_views(out@) =~= monitors_of(views.subrange(0, 0), email@));
        while i < self.monitors.len()
            invariant
                i <= self.monitors.len(),
                views == monitor_views(self.monitors@),
                monitor_views(out@) == monitors_of(views.subrange(0, i as int), email@),
            decreases self.monitors.len() - i,
        {
            let ghost done = monitor_views(out@);
            proof {
                assert(views.subrange(0, i + 1).drop_last() =~= views.subrange(0, i as int));
                assert(views.subrange(0, i + 1).last() == self.monitors@[i as int]@);
            }
            if same_text(&self.monitors[i].email, email) {
                out.push(self.monitors[i].copy());
                proof {
                    assert(monitor_views(out@) =~= done.push(self.monitors@[i as int]@));
                }
            }
            i += 1;
        }
        proof {
            assert(views.subrange(0, i as int) =~= views);
        }
        out
    }

    /// The cached node with the id `node_id`, if there is one.
    pub fn find_node(&self, node_id: &String) -> (r: Option<&Node>)
        requires
            self@.wf(),
        ensures
            match r {
                Some(n) => self@.cached(node_id@) == Some(n@),
                None => self@.cached(node_id@) is None,
            },
    {
        let mut i: usize = 0;
        while i < self.nodes.len()
            invariant
                i <= self.nodes.len(),
                self@.wf(),
                forall|k: int| 0 <= k < i ==> self@.nodes[k].id != node_id@,
            decreases self.nodes.len() - i,
        {
            if same_text(&self.nodes[i].id, node_id) {
                proof {
                    assert(self@.nodes[i as int].id == node_id@);
                    let c = choose|k: int|
                        0 <= k < self@.nodes.len() && self@.nodes[k].id == node_id@;
                    if c < i {
                        assert(self@.nodes[c].id != self@.nodes[i as int].id);
                    } else if i < c {
                        assert(self@.nodes[i as int].id != self@.nodes[c].id);
                    }
                }
                return Some(&self.nodes[i]);
            }
            i += 1;
        }
        None
    }

    /// The id that the next monitor gets.
    pub fn next_id(&self) -> (r: u64)
        ensures
            r == self@.next_id,
    {
        self.next_id
    }

    /// The place of the monitor that binds `email` to `node_id`.
    pub fn find_monitor(&self, email: &String, node_id: &String) -> (r: Option<usize>)
        ensures
            match r {
                Some(i) => self@.binds(i as int, email@, node_id@),
                None => !self@.watches(email@, node_id@),
            },
    {
        let mut i: usize = 0;
        while i < self.monitors.len()
            invariant
                i <= self.monitors.len(),
                forall|k: int| 0 <= k < i ==> !self@.binds(k, email@, node_id@),
            decreases self.monitors.len() - i,
        {
            if same_text(&self.monitors[i].email, email) && same_text(
                &self.monitors[i].node_id,
                node_id,
            ) {
                return Some(i);
            }
            i += 1;
        }
        None
    }

    /// Adds a monitor that binds `email` to `node_id`, last notified of
    /// `status`, under the next id.
    pub fn insert_monitor(&mut self, email: String, node_id: String, status: Status)
        requires
            old(self)@.wf(),
            !old(self)@.watches(email@, node_id@),
            old(self)@.next_id < u64::MAX,
        ensures
            final(self)@ == old(self)@.with_monitor(email@, node_id@, status),
            final(self)@.wf(),
    {
        let ghost before = self@;
        let id: u64 = self.next_id;
        self.monitors.push(Monitor { id, email, node_id, last_notified_status: status });
        self.next_id = id + 1;
        proof {
            assert(self@.monitors =~= before.with_monitor(email@, node_id@, status).monitors);
            lemma_with_monitor(before, email@, node_id@, status);
        }
    }

    /// Removes the monitor that binds `email` to `node_id`, and says whether
    /// there was one.
    pub fn delete_monitor(&mut self, email: &String, node_id: &String) -> (removed: bool)
        requires
            old(self)@.wf(),
        ensures
            removed == old(self)@.watches(email@, node_id@),
            final(self)@ == if removed {
                old(self)@.without_monitor(email@, node_id@)
            } else {
                old(self)@
            },
            final(self)@.wf(),
    {
        let ghost before = self@;
        match self.find_monitor(email, node_id) {
            None => false,
            Some(i) => {
                let _gone = self.monitors.remove(i);
                proof {
                    let k = choose|k: int| before.binds(k, email@, node_id@);
                    lemma_one_binding(before, i as int, k, email@, node_id@);
                    assert(self@.monitors =~= before.monitors.remove(i as int));
                    lemma_without_monitor(before, email@, node_id@);
                }
                true
            },
        }
    }

    /// Records that the monitor `monitor_id` was notified of `status`, and says
    /// whether there is such a monitor.
    pub fn update_last_notified(&mut self, monitor_id: u64, status: Status) -> (found: bool)
        requires
            old(self)@.wf(),
        ensures
            found == old(self)@.has_monitor(monitor_id),
            final(self)@ == old(self)@.notified(monitor_id, status),
            final(self)@.wf(),
    {
        let ghost before = self@;
        let mut i: usize = 0;
        while i < self.monitors.len()
            invariant
                i <= self.monitors.len(),
                self@ == before,
                before == old(self)@,
                before.wf(),
                forall|k: int| 0 <= k < i ==> before.monitors[k].id != monitor_id,
            decreases self.monitors.len() - i,
        {
            if self.monitors[i].id == monitor_id {
                let mut m = self.monitors.remove(i);
                m.last_notified_status = status;
                self.monitors.insert(i, m);
                proof {
                    let after = before.notified(monitor_id, status);
                    assert(before.monitors[i as int].id == monitor_id);
                    assert forall|k: int|
                        0 <= k < before.monitors.len() && k != i implies before.monitors[k].id
                        != monitor_id by {
                        if k < i {
                        } else {
                            assert(before.monitors[i as int].id < before.monitors[k].id);
                        }
                    }
                    assert(self@.monitors =~= after.monitors);
                    assert(before.has_monitor(monitor_id));
                }
                return true;
            }
            i += 1;
        }
        proof {
            assert(self@.monitors =~= before.notified(monitor_id, status).monitors);
        }
        false
    }

    /// Puts `node` into the cache: in the place of the cached node with its id,
    /// or behind the others where there was none.
    pub fn upsert_node_status(&mut self, node: Node)
        requires
            old(self)@.wf(),
        ensures
            final(self)@ == old(self)@.with_node(node@),
            final(self)@.wf(),
    {
        let ghost before = self@;
        let mut i: usize = 0;
        while i < self.nodes.len()
            invariant
                i <= self.nodes.len(),
                self@ == before,
                before == old(self)@,
                before.wf(),
                forall|k: int| 0 <= k < i ==> before.nodes[k].id != node@.id,
            decreases self.nodes.len() - i,
        {
            if same_text(&self.nodes[i].id, &node.id) {
                let _gone = self.nodes.remove(i);
                self.nodes.insert(i, node);
                proof {
                    assert(before.nodes[i as int].id == node@.id);
                    assert(before.has_node(node@.id));
                    assert forall|k: int|
                        0 <= k < before.nodes.len() && k != i implies before.nodes[k].id
                        != node@.id by {
                        if k < i {
                        } else {
                            assert(before.nodes[i as int].id != before.nodes[k].id);
                        }
                    }
                    assert(self@.nodes =~= before.with_node(node@).nodes);
                }
                return ;
            }
            i += 1;
        }
        self.nodes.push(node);
        proof {
            assert(!before.has_node(node@.id));
            assert(self@.nodes =~= before.with_node(node@).nodes);
        }
    }

    /// Puts each node of `snapshot` into the cache, in order.
    pub fn refresh_nodes(&mut self, snapshot: &Vec<Node>)
        requires
            old(self)@.wf(),
        ensures
            final(self)@ == old(self)@.refreshed(node_views(snapshot@)),
            final(self)@.wf(),
    {
        let ghost before = self@;
        let ghost views = node_views(snapshot@);
        let mut i: usize = 0;
        while i < snapshot.len()
            invariant
                i <= snapshot.len(),
                views == node_views(snapshot@),
                self@ == before.refreshed(views.subrange(0, i as int)),
                self@.wf(),
            decreases snapshot.len() - i,
        {
            self.upsert_node_status(snapshot[i].copy());
            i += 1;
            proof {
                assert(views.subrange(0, i as int).drop_last() =~= views.subrange(0, i - 1));
            }
        }
        proof {
            assert(views.subrange(0, i as int) =~= views);
        }
    }
}

} // verus!
