//! Per-entity update logic: applying updates to nodes and edges, and
//! appending an event to an entity's history at most once in a row.
use vstd::prelude::*;

use crate::compare::{copy_argument, copy_edge_kind, copy_event, eq_event};
use crate::ids::{EdgeID, NodeID};
use crate::structs::{
    actions_view, argument_list_view, edge_list_view, events_view, lemma_edge_history_view,
    lemma_migrate_view, lemma_node_history_view, updates_view, Argument, Base, Edge, EdgeAction,
    EdgeActionM, EdgeBaseM, EdgeKind, EdgeM, EventM, Node, NodeBaseM, NodeM, NodeUpdate,
    NodeUpdateM, Record, RecordCUD, RecordEvent, RecordM, DataHash, DataHashM,
};

verus! {

broadcast use vstd::std_specs::vec::group_vec_axioms;

// ---------------------------------------------------------------------------
// Association lists: the maps held by a node
// ---------------------------------------------------------------------------

/// Whether some entry of `s` has key `k`.
pub open spec fn has_key<K, V>(s: Seq<(K, V)>, k: K) -> bool {
    exists|i: int| 0 <= i < s.len() && #[trigger] s[i].0 == k
}

/// `s` with key `k` bound to `v`: each entry with key `k` is replaced, or the
/// binding is appended when there is none.
pub open spec fn assoc_set<K, V>(s: Seq<(K, V)>, k: K, v: V) -> Seq<(K, V)> {
    if has_key(s, k) {
        Seq::new(s.len(), |i: int| if s[i].0 == k { (k, v) } else { s[i] })
    } else {
        s.push((k, v))
    }
}

/// The test that an entry's key is not `k`.
pub open spec fn key_differs<K, V>(k: K) -> spec_fn((K, V)) -> bool {
    |p: (K, V)| p.0 != k
}

/// `s` without any entry of key `k`.
pub open spec fn assoc_remove<K, V>(s: Seq<(K, V)>, k: K) -> Seq<(K, V)> {
    s.filter(key_differs(k))
}

proof fn lemma_filter_step<A>(s: Seq<A>, i: int, pred: spec_fn(A) -> bool)
    requires
        0 <= i < s.len(),
    ensures
        s.take(i + 1).filter(pred) == if pred(s[i]) {
            s.take(i).filter(pred).push(s[i])
        } else {
            s.take(i).filter(pred)
        },
{
    reveal(Seq::filter);
    assert(s.take(i + 1).drop_last() =~= s.take(i));
}

/// Binds argument `k` to `v` in a node's argument list.
pub fn set_argument(args: &mut Vec<(String, Argument)>, k: &String, v: &Argument)
    ensures
        argument_list_view(*final(args)) == assoc_set(argument_list_view(*old(args)), k@, v@),
{
    let ghost s = argument_list_view(*args);
    let mut out: Vec<(String, Argument)> = Vec::new();
    let mut found = false;
    let mut i: usize = 0;
    while i < args.len()
        invariant
            i <= args.len(),
            s == argument_list_view(*args),
            out.len() == i,
            found == exists|j: int| 0 <= j < i && #[trigger] s[j].0 == k@,
            forall|j: int|
                0 <= j < i ==> argument_list_view(out)[j] == (if s[j].0 == k@ {
                    (k@, v@)
                } else {
                    s[j]
                }),
        decreases args.len() - i,
    {
        let ghost prev = argument_list_view(out);
        if args[i].0.eq(k) {
            out.push((k.clone(), copy_argument(v)));
            found = true;
            assert(s[i as int].0 == k@);
            assert(argument_list_view(out) =~= prev.push((k@, v@)));
        } else {
            out.push((args[i].0.clone(), copy_argument(&args[i].1)));
            assert(argument_list_view(out) =~= prev.push(s[i as int]));
        }
        i = i + 1;
    }
    if found {
        assert(argument_list_view(out) =~= assoc_set(s, k@, v@));
    } else {
        let ghost before = argument_list_view(out);
        assert(before =~= s);
        out.push((k.clone(), copy_argument(v)));
        assert(argument_list_view(out) =~= before.push((k@, v@)));
    }
    *args = out;
}

/// Removes argument `k` from a node's argument list.
pub fn remove_argument(args: &mut Vec<(String, Argument)>, k: &String)
    ensures
        argument_list_view(*final(args)) == assoc_remove(argument_list_view(*old(args)), k@),
{
    let ghost s = argument_list_view(*args);
    let ghost pred = key_differs::<Seq<char>, crate::structs::ArgumentM>(k@);
    let mut out: Vec<(String, Argument)> = Vec::new();
    let mut i: usize = 0;
    proof {
        reveal(Seq::filter);
        assert(s.take(0) =~= Seq::empty());
        assert(argument_list_view(out) =~= s.take(0).filter(pred));
    }
    while i < args.len()
        invariant
            i <= args.len(),
            s == argument_list_view(*args),
            pred == key_differs::<Seq<char>, crate::structs::ArgumentM>(k@),
            argument_list_view(out) == s.take(i as int).filter(pred),
        decreases args.len() - i,
    {
        proof {
            lemma_filter_step(s, i as int, pred);
        }
        let ghost prev = argument_list_view(out);
        if !args[i].0.eq(k) {
            out.push((args[i].0.clone(), copy_argument(&args[i].1)));
            assert(argument_list_view(out) =~= prev.push(s[i as int]));
            assert(pred(s[i as int]));
        } else {
            assert(!pred(s[i as int]));
        }
        i = i + 1;
    }
    assert(s.take(args.len() as int) =~= s);
    *args = out;
}

/// Binds edge `k` to kind `v` in a node's edge list.
pub fn set_edge_entry(edges: &mut Vec<(EdgeID, EdgeKind)>, k: EdgeID, v: &EdgeKind)
    ensures
        edge_list_view(*final(edges)) == assoc_set(edge_list_view(*old(edges)), k, v@),
{
    let ghost s = edge_list_view(*edges);
    let mut out: Vec<(EdgeID, EdgeKind)> = Vec::new();
    let mut found = false;
    let mut i: usize = 0;
    while i < edges.len()
        invariant
            i <= edges.len(),
            s == edge_list_view(*edges),
            out.len() == i,
            found == exists|j: int| 0 <= j < i && #[trigger] s[j].0 == k,
            forall|j: int|
                0 <= j < i ==> edge_list_view(out)[j] == (if s[j].0 == k {
                    (k, v@)
                } else {
                    s[j]
                }),
        decreases edges.len() - i,
    {
        let ghost prev = edge_list_view(out);
        if edges[i].0.eq(&k) {
            out.push((k, copy_edge_kind(v)));
            found = true;
            assert(s[i as int].0 == k);
            assert(edge_list_view(out) =~= prev.push((k, v@)));
        } else {
            out.push((edges[i].0, copy_edge_kind(&edges[i].1)));
            assert(edge_list_view(out) =~= prev.push(s[i as int]));
        }
        i = i + 1;
    }
    if found {
        assert(edge_list_view(out) =~= assoc_set(s, k, v@));
    } else {
        let ghost before = edge_list_view(out);
        assert(before =~= s);
        out.push((k, copy_edge_kind(v)));
        assert(edge_list_view(out) =~= before.push((k, v@)));
    }
    *edges = out;
}

/// Removes edge `k` from a node's edge list.
pub fn remove_edge_entry(edges: &mut Vec<(EdgeID, EdgeKind)>, k: EdgeID)
    ensures
        edge_list_view(*final(edges)) == assoc_remove(edge_list_view(*old(edges)), k),
{
    let ghost s = edge_list_view(*edges);
    let ghost pred = key_differs::<EdgeID, crate::structs::EdgeKindM>(k);
    let mut out: Vec<(EdgeID, EdgeKind)> = Vec::new();
    let mut i: usize = 0;
    proof {
        reveal(Seq::filter);
        assert(s.take(0) =~= Seq::empty());
        assert(edge_list_view(out) =~= s.take(0).filter(pred));
    }
    while i < edges.len()
        invariant
            i <= edges.len(),
            s == edge_list_view(*edges),
            pred == key_differs::<EdgeID, crate::structs::EdgeKindM>(k),
            edge_list_view(out) == s.take(i as int).filter(pred),
        decreases edges.len() - i,
    {
        proof {
            lemma_filter_step(s, i as int, pred);
        }
        let ghost prev = edge_list_view(out);
        if !edges[i].0.eq(&k) {
            out.push((edges[i].0, copy_edge_kind(&edges[i].1)));
            assert(edge_list_view(out) =~= prev.push(s[i as int]));
            assert(pred(s[i as int]));
        } else {
            assert(!pred(s[i as int]));
        }
        i = i + 1;
    }
    assert(s.take(edges.len() as int) =~= s);
    *edges = out;
}

// ---------------------------------------------------------------------------
// Identity of a record's target
// ---------------------------------------------------------------------------

/// An entity that can name its own identifier.
pub trait HasID<T> {
    spec fn spec_id(&self) -> T;

    fn id(&self) -> (r: T)
        ensures
            r == self.spec_id(),
    ;
}

impl HasID<NodeID> for Node {
    open spec fn spec_id(&self) -> NodeID {
        self.id
    }

    fn id(&self) -> (r: NodeID) {
        self.id
    }
}

impl HasID<EdgeID> for Edge {
    open spec fn spec_id(&self) -> EdgeID {
        self.id
    }

    fn id(&self) -> (r: EdgeID) {
        self.id
    }
}

impl<ID: Copy, C: HasID<ID>, U> RecordCUD<ID, C, U> {
    /// The identifier of the entity that this record targets.
    pub open spec fn spec_get_id(&self) -> ID {
        match self.base {
            Base::ID(id) => id,
            Base::Create(c) => c.spec_id(),
        }
    }

    /// The bare identifier, or the one that the new entity carries.
    pub fn get_id(&self) -> (r: ID)
        ensures
            r == self.spec_get_id(),
    {
        match &self.base {
            Base::ID(id) => *id,
            Base::Create(c) => c.id(),
        }
    }
}

/// The node that a node record targets.
pub open spec fn node_base_id(b: NodeBaseM) -> NodeID {
    match b {
        NodeBaseM::ID(id) => id,
        NodeBaseM::Create(n) => n.id,
    }
}

/// The edge that an edge record targets.
pub open spec fn edge_base_id(b: EdgeBaseM) -> EdgeID {
    match b {
        EdgeBaseM::ID(id) => id,
        EdgeBaseM::Create(e) => e.id,
    }
}

// ---------------------------------------------------------------------------
// Nodes
// ---------------------------------------------------------------------------

/// A node after one update.
pub open spec fn apply_update(n: NodeM, u: NodeUpdateM) -> NodeM
    decreases u, 0nat,
{
    match u {
        NodeUpdateM::Label(l) => NodeM { label: l, ..n },
        NodeUpdateM::Data(b) => NodeM { data: DataHashM::Bytes(b), ..n },
        NodeUpdateM::SetArgument(k, v) => NodeM { arguments: assoc_set(n.arguments, k, v), ..n },
        NodeUpdateM::RemoveArgument(k) => NodeM { arguments: assoc_remove(n.arguments, k), ..n },
        NodeUpdateM::Migrate(v, us) => apply_updates(NodeM { op_version: v, ..n }, us, us.len()),
        NodeUpdateM::Delete => n,
    }
}

/// A node after the first `k` updates of `us`, in order.
pub open spec fn apply_updates(n: NodeM, us: Seq<NodeUpdateM>, k: nat) -> NodeM
    decreases us, k,
{
    if k == 0 || k > us.len() {
        n
    } else {
        apply_update(apply_updates(n, us, (k - 1) as nat), us[k - 1])
    }
}

/// A node after an event is appended to its history: nothing changes when
/// the event equals the last one recorded; otherwise the event is pushed,
/// and a node record that targets this node has its updates applied.
pub open spec fn node_add_history(n: NodeM, e: EventM) -> NodeM {
    if n.history.len() > 0 && n.history.last() == e {
        n
    } else {
        let pushed = NodeM { history: n.history.push(e), ..n };
        match e.record {
            RecordM::Node(base, us) => if node_base_id(base) == n.id {
                apply_updates(pushed, us, us.len())
            } else {
                pushed
            },
            RecordM::Edge(_, _) => pushed,
        }
    }
}

impl Node {
    /// Applies one update.
    pub fn apply_update(&mut self, u: &NodeUpdate)
        ensures
            final(self)@ == apply_update(old(self)@, u@),
        decreases u,
    {
        match u {
            NodeUpdate::Label(l) => {
                self.label = l.clone();
            },
            NodeUpdate::Data(b) => {
                self.data = DataHash::Bytes(crate::compare::copy_bytes(b));
            },
            NodeUpdate::SetArgument(k, v) => {
                set_argument(&mut self.arguments, k, v);
            },
            NodeUpdate::RemoveArgument(k) => {
                remove_argument(&mut self.arguments, k);
            },
            NodeUpdate::Migrate(v, us) => {
                proof {
                    lemma_migrate_view(*v, *us);
                }
                self.op_version = *v;
                self.apply_updates(us);
            },
            NodeUpdate::Delete => {},
        }
    }

    /// Applies the updates in order.
    pub fn apply_updates(&mut self, us: &Vec<NodeUpdate>)
        ensures
            final(self)@ == apply_updates(old(self)@, updates_view(*us), us.len() as nat),
        decreases us,
    {
        let ghost start = self@;
        let mut i: usize = 0;
        while i < us.len()
            invariant
                i <= us.len(),
                self@ == apply_updates(start, updates_view(*us), i as nat),
            decreases us.len() - i,
        {
            proof {
                vstd::std_specs::vec::axiom_vec_index_decreases(*us, i as int);
            }
            self.apply_update(&us[i]);
            i = i + 1;
        }
    }

    /// Applies one update.
    pub fn update(&mut self, update: NodeUpdate)
        ensures
            final(self)@ == apply_update(old(self)@, update@),
            node_keys_unique(old(self)@) ==> node_keys_unique(final(self)@),
    {
        proof {
            if node_keys_unique(self@) {
                lemma_apply_update_unique(self@, update@);
            }
        }
        self.apply_update(&update);
    }

    /// Appends an event to the history unless it equals the last one; a new
    /// event that targets this node has its updates applied.
    pub fn add_history(&mut self, re: RecordEvent)
        ensures
            final(self)@ == node_add_history(old(self)@, re@),
            node_keys_unique(old(self)@) ==> node_keys_unique(final(self)@),
    {
        proof {
            lemma_node_history_view(*self);
            if node_keys_unique(self@) {
                lemma_node_add_history_unique(self@, re@);
            }
        }
        let n = self.history.len();
        if n > 0 && eq_event(&self.history[n - 1], &re) {
            return;
        }
        let ghost pushed = NodeM { history: self@.history.push(re@), ..self@ };
        let updates: Option<Vec<NodeUpdate>> = match &re.1 {
            Record::Node(c) => {
                if c.get_id().eq(&self.id) {
                    Some(crate::compare::copy_updates(&c.updates))
                } else {
                    None
                }
            },
            Record::Edge(_) => None,
        };
        self.history.push(re);
        proof {
            lemma_node_history_view(*self);
            assert(self@.history =~= pushed.history);
            assert(self@ == pushed);
        }
        if let Some(us) = updates {
            self.apply_updates(&us);
        }
    }
}

// ---------------------------------------------------------------------------
// Edges
// ---------------------------------------------------------------------------

/// An edge after one action.
pub open spec fn apply_action(e: EdgeM, a: EdgeActionM) -> EdgeM {
    match a {
        EdgeActionM::Kind(k) => EdgeM { kind: k, ..e },
        EdgeActionM::Validity(v) => EdgeM { validity: v, ..e },
        EdgeActionM::Delete => e,
    }
}

/// An edge after the first `k` actions of `acts`, in order.
pub open spec fn apply_actions(e: EdgeM, acts: Seq<EdgeActionM>, k: nat) -> EdgeM
    decreases k,
{
    if k == 0 || k > acts.len() {
        e
    } else {
        apply_action(apply_actions(e, acts, (k - 1) as nat), acts[k - 1])
    }
}

/// An edge after an event is appended to its history, by the same rule as
/// for nodes.
pub open spec fn edge_add_history(e: EdgeM, ev: EventM) -> EdgeM {
    if e.history.len() > 0 && e.history.last() == ev {
        e
    } else {
        let pushed = EdgeM { history: e.history.push(ev), ..e };
        match ev.record {
            RecordM::Edge(base, acts) => if edge_base_id(base) == e.id {
                apply_actions(pushed, acts, acts.len())
            } else {
                pushed
            },
            RecordM::Node(_, _) => pushed,
        }
    }
}

impl Edge {
    /// Applies one action.
    pub fn update(&mut self, update: EdgeAction)
        ensures
            final(self)@ == apply_action(old(self)@, update@),
    {
        self.apply_action(&update);
    }

    /// Applies one action.
    pub fn apply_action(&mut self, update: &EdgeAction)
        ensures
            final(self)@ == apply_action(old(self)@, update@),
    {
        match update {
            EdgeAction::Kind(k) => {
                self.kind = copy_edge_kind(k);
            },
            EdgeAction::Validity(v) => {
                self.validity = *v;
            },
            EdgeAction::Delete => {},
        }
    }

    /// Applies the actions in order.
    pub fn apply_actions(&mut self, acts: &Vec<EdgeAction>)
        ensures
            final(self)@ == apply_actions(old(self)@, actions_view(*acts), acts.len() as nat),
    {
        let ghost start = self@;
        let mut i: usize = 0;
        while i < acts.len()
            invariant
                i <= acts.len(),
                self@ == apply_actions(start, actions_view(*acts), i as nat),
            decreases acts.len() - i,
        {
            self.apply_action(&acts[i]);
            i = i + 1;
        }
    }

    /// Appends an event to the history unless it equals the last one; a new
    /// event that targets this edge has its actions applied.
    pub fn add_history(&mut self, re: RecordEvent)
        ensures
            final(self)@ == edge_add_history(old(self)@, re@),
    {
        proof {
            lemma_edge_history_view(*self);
        }
        let n = self.history.len();
        if n > 0 && eq_event(&self.history[n - 1], &re) {
            return;
        }
        let ghost pushed = EdgeM { history: self@.history.push(re@), ..self@ };
        let acts: Option<Vec<EdgeAction>> = match &re.1 {
            Record::Edge(c) => {
                if c.get_id().eq(&self.id) {
                    Some(crate::compare::copy_actions(&c.updates))
                } else {
                    None
                }
            },
            Record::Node(_) => None,
        };
        self.history.push(re);
        proof {
            lemma_edge_history_view(*self);
            assert(self@.history =~= pushed.history);
            assert(self@ == pushed);
        }
        if let Some(a) = acts {
            self.apply_actions(&a);
        }
    }
}

// ---------------------------------------------------------------------------
// What updates leave alone, and idempotence of the history
// ---------------------------------------------------------------------------

/// Updates change neither a node's identity, nor its edges, nor its history.
pub proof fn lemma_apply_update_keeps(n: NodeM, u: NodeUpdateM)
    ensures
        apply_update(n, u).id == n.id,
        apply_update(n, u).edges == n.edges,
        apply_update(n, u).history == n.history,
    decreases u, 0nat,
{
    if let NodeUpdateM::Migrate(v, us) = u {
        lemma_apply_updates_keeps(NodeM { op_version: v, ..n }, us, us.len());
    }
}

/// A run of updates changes neither a node's identity, nor its edges, nor
/// its history.
pub proof fn lemma_apply_updates_keeps(n: NodeM, us: Seq<NodeUpdateM>, k: nat)
    ensures
        apply_updates(n, us, k).id == n.id,
        apply_updates(n, us, k).edges == n.edges,
        apply_updates(n, us, k).history == n.history,
    decreases us, k,
{
    if k == 0 || k > us.len() {
    } else {
        lemma_apply_updates_keeps(n, us, (k - 1) as nat);
        lemma_apply_update_keeps(apply_updates(n, us, (k - 1) as nat), us[k - 1]);
    }
}

/// Actions change neither an edge's identity nor its history.
pub proof fn lemma_apply_actions_keeps(e: EdgeM, acts: Seq<EdgeActionM>, k: nat)
    ensures
        apply_actions(e, acts, k).id == e.id,
        apply_actions(e, acts, k).history == e.history,
    decreases k,
{
    if k == 0 || k > acts.len() {
    } else {
        lemma_apply_actions_keeps(e, acts, (k - 1) as nat);
    }
}

/// Appending an event to a node's history keeps its identity and its edges,
/// and leaves the history one entry longer, or unchanged when the event is
/// already the last entry.
pub proof fn lemma_node_add_history_shape(n: NodeM, e: EventM)
    ensures
        node_add_history(n, e).id == n.id,
        node_add_history(n, e).edges == n.edges,
        node_add_history(n, e).history == if n.history.len() > 0 && n.history.last() == e {
            n.history
        } else {
            n.history.push(e)
        },
{
    let pushed = NodeM { history: n.history.push(e), ..n };
    if let RecordM::Node(_, us) = e.record {
        lemma_apply_updates_keeps(pushed, us, us.len());
    }
}

/// Appending an event to an edge's history keeps its identity, and leaves
/// the history one entry longer, or unchanged when the event is already the
/// last entry.
pub proof fn lemma_edge_add_history_shape(e: EdgeM, ev: EventM)
    ensures
        edge_add_history(e, ev).id == e.id,
        edge_add_history(e, ev).history == if e.history.len() > 0 && e.history.last() == ev {
            e.history
        } else {
            e.history.push(ev)
        },
{
    let pushed = EdgeM { history: e.history.push(ev), ..e };
    if let RecordM::Edge(_, acts) = ev.record {
        lemma_apply_actions_keeps(pushed, acts, acts.len());
    }
}

/// History idempotence for nodes: appending the same event a second time
/// changes nothing, so the event is recorded once and its updates are
/// applied once.
pub proof fn lemma_node_history_idempotent(n: NodeM, e: EventM)
    ensures
        node_add_history(node_add_history(n, e), e) == node_add_history(n, e),
{
    lemma_node_add_history_shape(n, e);
}

/// History idempotence for edges: appending the same event a second time
/// changes nothing.
pub proof fn lemma_edge_history_idempotent(e: EdgeM, ev: EventM)
    ensures
        edge_add_history(edge_add_history(e, ev), ev) == edge_add_history(e, ev),
{
    lemma_edge_add_history_shape(e, ev);
}

// ---------------------------------------------------------------------------
// Each key at most once
// ---------------------------------------------------------------------------

/// No two entries of `s` have the same key.
pub open spec fn unique_keys<K, V>(s: Seq<(K, V)>) -> bool {
    forall|i: int, j: int|
        0 <= i < s.len() && 0 <= j < s.len() && i != j ==> #[trigger] s[i].0 != #[trigger] s[j].0
}

/// A node holds each edge and each argument name at most once.
pub open spec fn node_keys_unique(n: NodeM) -> bool {
    unique_keys(n.edges) && unique_keys(n.arguments)
}

/// Binding a key keeps the keys unique.
pub proof fn lemma_assoc_set_unique<K, V>(s: Seq<(K, V)>, k: K, v: V)
    requires
        unique_keys(s),
    ensures
        unique_keys(assoc_set(s, k, v)),
{
    let t = assoc_set(s, k, v);
    if has_key(s, k) {
        assert forall|i: int, j: int|
            0 <= i < t.len() && 0 <= j < t.len() && i != j implies #[trigger] t[i].0 != #[trigger] t[j].0 by {
            assert(t[i].0 == s[i].0 && t[j].0 == s[j].0);
        }
    } else {
        assert forall|i: int, j: int|
            0 <= i < t.len() && 0 <= j < t.len() && i != j implies #[trigger] t[i].0 != #[trigger] t[j].0 by {
            if i < s.len() && j < s.len() {
                assert(t[i] == s[i] && t[j] == s[j]);
            } else if i < s.len() {
                assert(t[i] == s[i]);
            } else {
                assert(t[j] == s[j]);
            }
        }
    }
}

/// Removing a key keeps the keys unique.
pub proof fn lemma_assoc_remove_unique<K, V>(s: Seq<(K, V)>, k: K)
    requires
        unique_keys(s),
    ensures
        unique_keys(assoc_remove(s, k)),
    decreases s.len(),
{
    reveal(Seq::filter);
    if s.len() > 0 {
        let d = s.drop_last();
        assert(unique_keys(d)) by {
            assert forall|i: int, j: int|
                0 <= i < d.len() && 0 <= j < d.len() && i != j implies #[trigger] d[i].0 != #[trigger] d[j].0 by {
                assert(d[i] == s[i] && d[j] == s[j]);
            }
        }
        lemma_assoc_remove_unique(d, k);
        let sub = d.filter(key_differs(k));
        let t = s.filter(key_differs(k));
        if key_differs(k)(s.last()) {
            assert(t == sub.push(s.last()));
            assert forall|i: int| 0 <= i < sub.len() implies #[trigger] sub[i].0 != s.last().0 by {
                assert(sub.contains(sub[i]));
                d.lemma_filter_contains_rev(key_differs(k), sub[i]);
                assert(d.contains(sub[i]));
                let m = choose|m: int| 0 <= m < d.len() && d[m] == sub[i];
                assert(s[m] == sub[i]);
                assert(s[s.len() - 1] == s.last());
            }
            assert forall|i: int, j: int|
                0 <= i < t.len() && 0 <= j < t.len() && i != j implies #[trigger] t[i].0 != #[trigger] t[j].0 by {
                if i < sub.len() && j < sub.len() {
                    assert(t[i] == sub[i] && t[j] == sub[j]);
                } else if i < sub.len() {
                    assert(t[i] == sub[i]);
                } else {
                    assert(t[j] == sub[j]);
                }
            }
        }
    }
}

/// Updates keep a node's keys unique.
pub proof fn lemma_apply_update_unique(n: NodeM, u: NodeUpdateM)
    requires
        node_keys_unique(n),
    ensures
        node_keys_unique(apply_update(n, u)),
    decreases u, 0nat,
{
    match u {
        NodeUpdateM::SetArgument(k, v) => lemma_assoc_set_unique(n.arguments, k, v),
        NodeUpdateM::RemoveArgument(k) => lemma_assoc_remove_unique(n.arguments, k),
        NodeUpdateM::Migrate(v, us) => lemma_apply_updates_unique(NodeM { op_version: v, ..n }, us, us.len()),
        _ => {},
    }
}

/// A run of updates keeps a node's keys unique.
pub proof fn lemma_apply_updates_unique(n: NodeM, us: Seq<NodeUpdateM>, k: nat)
    requires
        node_keys_unique(n),
    ensures
        node_keys_unique(apply_updates(n, us, k)),
    decreases us, k,
{
    if k > 0 && k <= us.len() {
        lemma_apply_updates_unique(n, us, (k - 1) as nat);
        lemma_apply_update_unique(apply_updates(n, us, (k - 1) as nat), us[k - 1]);
    }
}

/// Appending an event keeps a node's keys unique.
pub proof fn lemma_node_add_history_unique(n: NodeM, e: EventM)
    requires
        node_keys_unique(n),
    ensures
        node_keys_unique(node_add_history(n, e)),
{
    let pushed = NodeM { history: n.history.push(e), ..n };
    if let RecordM::Node(_, us) = e.record {
        lemma_apply_updates_unique(pushed, us, us.len());
    }
}

} // verus!
