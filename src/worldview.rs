//! The world view: the authoritative in-memory state of all nodes and edges,
//! built by replaying the transactions of every registered source, with the
//! back-references from nodes to the edges that link them kept current.
use vstd::prelude::*;

use crate::compare::{copy_edge, copy_edge_kind, copy_event, copy_node, copy_record, copy_transaction};
use crate::entity::{
    assoc_remove, assoc_set, has_key, lemma_assoc_remove_unique, lemma_assoc_set_unique,
    lemma_node_add_history_unique, node_keys_unique, edge_add_history, edge_base_id, lemma_edge_add_history_shape,
    lemma_node_add_history_shape, node_add_history, node_base_id, remove_edge_entry,
    set_edge_entry,
};
use crate::ids::{EdgeID, NodeID, SourceID};
use crate::structs::{
    Base, Edge, EdgeBaseM, EdgeKind, EdgeKindM, EdgeM, EventM, Node, NodeBaseM, NodeM, Record,
    RecordEvent, RecordM, Transaction, TransactionM,
};
use crate::table::{has_entry, keys_unique, lemma_table_index, lemma_table_push, lemma_table_update, table};

verus! {

broadcast use vstd::std_specs::vec::group_vec_axioms;

/// What a source declares about itself when it is registered.
#[derive(Clone, Copy, PartialEq, Eq, Debug)]
pub struct SourceCapabilities {
    pub id: SourceID,
    /// The world view should poll this source by itself.
    pub auto_fetch: bool,
    /// Transactions written elsewhere may be handed to this source.
    pub accepts_txs: bool,
    /// The source can search (reserved).
    pub can_search: bool,
}

/// What the world view keeps of a registered source.
#[derive(Clone, Copy, PartialEq, Eq, Debug)]
pub struct SourceEntry {
    pub capabilities: SourceCapabilities,
    /// The first node that the source created.
    pub root: NodeID,
}

/// Why the world view refused a request.
#[derive(Clone, Copy, PartialEq, Eq, Structural, Debug)]
pub enum WorldViewError {
    /// A new source's first transactions hold no node to serve as its root.
    NoRootNode,
}

/// The node and edge tables, as maps from identifier to value.
pub struct Tables {
    pub nodes: Map<NodeID, NodeM>,
    pub edges: Map<EdgeID, EdgeM>,
}

/// The value of a world view.
pub struct WorldViewM {
    pub tables: Tables,
    /// Every transaction applied, in order.
    pub log: Seq<TransactionM>,
    /// Each registered source, by its identifier, in order of registration.
    pub sources: Seq<(SourceID, SourceEntry)>,
}

pub open spec fn node_key() -> spec_fn(NodeM) -> NodeID {
    |n: NodeM| n.id
}

pub open spec fn edge_key() -> spec_fn(EdgeM) -> EdgeID {
    |e: EdgeM| e.id
}

/// The world view of a single writer: every change goes through `do_tx`.
#[derive(Debug)]
pub struct WorldView {
    transactions: Vec<Transaction>,
    nodes: Vec<Node>,
    edges: Vec<Edge>,
    sources: Vec<(SourceID, SourceEntry)>,
}

impl WorldView {
    pub closed spec fn node_seq(&self) -> Seq<NodeM> {
        Seq::new(self.nodes.len() as nat, |i: int| self.nodes[i]@)
    }

    pub closed spec fn edge_seq(&self) -> Seq<EdgeM> {
        Seq::new(self.edges.len() as nat, |i: int| self.edges[i]@)
    }

    /// The tables hold each identifier at most once.
    pub closed spec fn wf(&self) -> bool {
        &&& keys_unique(self.node_seq(), node_key())
        &&& keys_unique(self.edge_seq(), edge_key())
    }
}

impl View for WorldView {
    type V = WorldViewM;

    closed spec fn view(&self) -> WorldViewM {
        WorldViewM {
            tables: Tables {
                nodes: table(self.node_seq(), node_key()),
                edges: table(self.edge_seq(), edge_key()),
            },
            log: Seq::new(self.transactions.len() as nat, |i: int| self.transactions[i]@),
            sources: self.sources@,
        }
    }
}

// ---------------------------------------------------------------------------
// Replay, stated over the tables
// ---------------------------------------------------------------------------

/// The nodes that an edge of this kind links. The members of an equality are
/// all treated alike; a reference links its destination.
pub open spec fn edge_participants(k: EdgeKindM) -> Seq<NodeID> {
    match k {
        EdgeKindM::Equality(ids) => ids,
        EdgeKindM::Definition { object, label } => seq![object, label],
        EdgeKindM::Using { client, object } => seq![client, object],
        EdgeKindM::Contains { container, object } => seq![container, object],
        EdgeKindM::Reference { dest, blob: _ } => seq![dest],
    }
}

/// Node `p`, if stored, with its entry for edge `e` set to `e`'s kind and
/// the event appended to its history.
pub open spec fn attach_one(nodes: Map<NodeID, NodeM>, p: NodeID, e: EdgeM, ev: EventM) -> Map<
    NodeID,
    NodeM,
> {
    if nodes.contains_key(p) {
        nodes.insert(
            p,
            node_add_history(NodeM { edges: assoc_set(nodes[p].edges, e.id, e.kind), ..nodes[p] }, ev),
        )
    } else {
        nodes
    }
}

/// The first `k` participants of `e` attached, in order.
pub open spec fn attach_upto(nodes: Map<NodeID, NodeM>, e: EdgeM, ev: EventM, k: nat) -> Map<
    NodeID,
    NodeM,
>
    decreases k,
{
    if k == 0 || k > edge_participants(e.kind).len() {
        nodes
    } else {
        attach_one(attach_upto(nodes, e, ev, (k - 1) as nat), edge_participants(e.kind)[k - 1], e, ev)
    }
}

/// Every participant of `e` attached.
pub open spec fn attach(nodes: Map<NodeID, NodeM>, e: EdgeM, ev: EventM) -> Map<NodeID, NodeM> {
    attach_upto(nodes, e, ev, edge_participants(e.kind).len())
}

/// Node `p`, if stored, without its entry for edge `eid`.
pub open spec fn detach_one(nodes: Map<NodeID, NodeM>, p: NodeID, eid: EdgeID) -> Map<
    NodeID,
    NodeM,
> {
    if nodes.contains_key(p) {
        nodes.insert(p, NodeM { edges: assoc_remove(nodes[p].edges, eid), ..nodes[p] })
    } else {
        nodes
    }
}

/// The first `k` participants of `e` detached, in order.
pub open spec fn detach_upto(nodes: Map<NodeID, NodeM>, e: EdgeM, k: nat) -> Map<NodeID, NodeM>
    decreases k,
{
    if k == 0 || k > edge_participants(e.kind).len() {
        nodes
    } else {
        detach_one(detach_upto(nodes, e, (k - 1) as nat), edge_participants(e.kind)[k - 1], e.id)
    }
}

/// Every participant of `e` detached.
pub open spec fn detach(nodes: Map<NodeID, NodeM>, e: EdgeM) -> Map<NodeID, NodeM> {
    detach_upto(nodes, e, edge_participants(e.kind).len())
}

/// The tables after one event. An update of a missing entity changes
/// nothing; an update of an edge detaches it with its old kind and attaches
/// it with its new one.
pub open spec fn apply_record(t: Tables, ev: EventM) -> Tables {
    match ev.record {
        RecordM::Node(NodeBaseM::ID(id), _) => if t.nodes.contains_key(id) {
            Tables { nodes: t.nodes.insert(id, node_add_history(t.nodes[id], ev)), ..t }
        } else {
            t
        },
        RecordM::Node(NodeBaseM::Create(n), _) => Tables {
            nodes: t.nodes.insert(n.id, node_add_history(n, ev)),
            ..t
        },
        RecordM::Edge(EdgeBaseM::ID(id), _) => if t.edges.contains_key(id) {
            let e = edge_add_history(t.edges[id], ev);
            Tables { nodes: attach(detach(t.nodes, t.edges[id]), e, ev), edges: t.edges.insert(id, e) }
        } else {
            t
        },
        RecordM::Edge(EdgeBaseM::Create(e0), _) => {
            let e = edge_add_history(e0, ev);
            Tables { nodes: attach(t.nodes, e, ev), edges: t.edges.insert(e0.id, e) }
        },
    }
}

/// The tables after the first `k` records, each stamped with `ts`.
pub open spec fn apply_records(t: Tables, ts: i128, rs: Seq<RecordM>, k: nat) -> Tables
    decreases k,
{
    if k == 0 || k > rs.len() {
        t
    } else {
        apply_record(apply_records(t, ts, rs, (k - 1) as nat), EventM { ts, record: rs[k - 1] })
    }
}

/// The tables after a transaction.
pub open spec fn replay(t: Tables, tx: TransactionM) -> Tables {
    apply_records(t, tx.timestamp, tx.records, tx.records.len())
}

/// The targets of the node records among the first `k` records.
pub open spec fn touched_nodes(rs: Seq<RecordM>, k: nat) -> Seq<NodeID>
    decreases k,
{
    if k == 0 || k > rs.len() {
        Seq::empty()
    } else {
        let prev = touched_nodes(rs, (k - 1) as nat);
        match rs[k - 1] {
            RecordM::Node(b, _) => prev.push(node_base_id(b)),
            RecordM::Edge(_, _) => prev,
        }
    }
}

/// The targets of the edge records among the first `k` records.
pub open spec fn touched_edges(rs: Seq<RecordM>, k: nat) -> Seq<EdgeID>
    decreases k,
{
    if k == 0 || k > rs.len() {
        Seq::empty()
    } else {
        let prev = touched_edges(rs, (k - 1) as nat);
        match rs[k - 1] {
            RecordM::Edge(b, _) => prev.push(edge_base_id(b)),
            RecordM::Node(_, _) => prev,
        }
    }
}


/// The tables after the first `k` transactions, in order.
pub open spec fn replay_all(t: Tables, txs: Seq<TransactionM>, k: nat) -> Tables
    decreases k,
{
    if k == 0 || k > txs.len() {
        t
    } else {
        replay(replay_all(t, txs, (k - 1) as nat), txs[k - 1])
    }
}

/// The targets of the node records of the first `k` transactions, in order.
pub open spec fn touched_nodes_all(txs: Seq<TransactionM>, k: nat) -> Seq<NodeID>
    decreases k,
{
    if k == 0 || k > txs.len() {
        Seq::empty()
    } else {
        touched_nodes_all(txs, (k - 1) as nat) + touched_nodes(
            txs[k - 1].records,
            txs[k - 1].records.len(),
        )
    }
}

/// The targets of the edge records of the first `k` transactions, in order.
pub open spec fn touched_edges_all(txs: Seq<TransactionM>, k: nat) -> Seq<EdgeID>
    decreases k,
{
    if k == 0 || k > txs.len() {
        Seq::empty()
    } else {
        touched_edges_all(txs, (k - 1) as nat) + touched_edges(
            txs[k - 1].records,
            txs[k - 1].records.len(),
        )
    }
}

/// The nodes that the node records among the first `k` records create, in
/// order.
pub open spec fn created_nodes(rs: Seq<RecordM>, k: nat) -> Seq<NodeID>
    decreases k,
{
    if k == 0 || k > rs.len() {
        Seq::empty()
    } else {
        let prev = created_nodes(rs, (k - 1) as nat);
        match rs[k - 1] {
            RecordM::Node(NodeBaseM::Create(n), _) => prev.push(n.id),
            _ => prev,
        }
    }
}

/// The nodes that the first `k` transactions create, in order.
pub open spec fn created_nodes_all(txs: Seq<TransactionM>, k: nat) -> Seq<NodeID>
    decreases k,
{
    if k == 0 || k > txs.len() {
        Seq::empty()
    } else {
        created_nodes_all(txs, (k - 1) as nat) + created_nodes(
            txs[k - 1].records,
            txs[k - 1].records.len(),
        )
    }
}

/// The first node that a run of transactions creates, if any.
pub open spec fn first_created(txs: Seq<TransactionM>) -> Option<NodeID> {
    let c = created_nodes_all(txs, txs.len());
    if c.len() > 0 {
        Some(c[0])
    } else {
        None
    }
}

/// The values of a list of transactions.
pub open spec fn transactions_view(txs: Vec<Transaction>) -> Seq<TransactionM> {
    Seq::new(txs.len() as nat, |i: int| txs[i]@)
}


/// Every node of the map holds each edge and each argument name at most
/// once.
pub open spec fn nodes_keys_unique(nodes: Map<NodeID, NodeM>) -> bool {
    forall|id: NodeID| #[trigger] nodes.contains_key(id) ==> node_keys_unique(nodes[id])
}

/// Every stored node holds each edge and each argument name at most once.
pub open spec fn tables_keys_unique(t: Tables) -> bool {
    nodes_keys_unique(t.nodes)
}

proof fn lemma_insert_unique(nodes: Map<NodeID, NodeM>, id: NodeID, n: NodeM)
    requires
        nodes_keys_unique(nodes),
        node_keys_unique(n),
    ensures
        nodes_keys_unique(nodes.insert(id, n)),
{
    assert forall|x: NodeID| #[trigger] nodes.insert(id, n).contains_key(x) implies node_keys_unique(nodes.insert(id, n)[x]) by {
        if x != id {
            assert(nodes.contains_key(x));
        }
    }
}

/// A record that creates a node brings one whose keys are unique.
pub open spec fn record_keys_unique(r: RecordM) -> bool {
    match r {
        RecordM::Node(NodeBaseM::Create(n), _) => node_keys_unique(n),
        _ => true,
    }
}

proof fn lemma_attach_upto_unique(nodes: Map<NodeID, NodeM>, e: EdgeM, ev: EventM, k: nat)
    requires
        nodes_keys_unique(nodes),
    ensures
        nodes_keys_unique(attach_upto(nodes, e, ev, k)),
    decreases k,
{
    if k > 0 && k <= edge_participants(e.kind).len() {
        let prev = attach_upto(nodes, e, ev, (k - 1) as nat);
        lemma_attach_upto_unique(nodes, e, ev, (k - 1) as nat);
        let p = edge_participants(e.kind)[k - 1];
        if prev.contains_key(p) {
            assert(node_keys_unique(prev[p]));
            lemma_assoc_set_unique(prev[p].edges, e.id, e.kind);
            let m = NodeM { edges: assoc_set(prev[p].edges, e.id, e.kind), ..prev[p] };
            lemma_node_add_history_unique(m, ev);
            lemma_insert_unique(prev, p, node_add_history(m, ev));
        }
    }
}

proof fn lemma_detach_upto_unique(nodes: Map<NodeID, NodeM>, e: EdgeM, k: nat)
    requires
        nodes_keys_unique(nodes),
    ensures
        nodes_keys_unique(detach_upto(nodes, e, k)),
    decreases k,
{
    if k > 0 && k <= edge_participants(e.kind).len() {
        let prev = detach_upto(nodes, e, (k - 1) as nat);
        lemma_detach_upto_unique(nodes, e, (k - 1) as nat);
        let p = edge_participants(e.kind)[k - 1];
        if prev.contains_key(p) {
            assert(node_keys_unique(prev[p]));
            lemma_assoc_remove_unique(prev[p].edges, e.id);
            lemma_insert_unique(prev, p, NodeM { edges: assoc_remove(prev[p].edges, e.id), ..prev[p] });
        }
    }
}

/// Replaying records keeps every stored node's keys unique, when the nodes
/// that the records create have unique keys.
pub proof fn lemma_apply_records_unique(t: Tables, ts: i128, rs: Seq<RecordM>, k: nat)
    requires
        tables_keys_unique(t),
        forall|i: int| 0 <= i < rs.len() ==> record_keys_unique(#[trigger] rs[i]),
    ensures
        tables_keys_unique(apply_records(t, ts, rs, k)),
    decreases k,
{
    if k > 0 && k <= rs.len() {
        lemma_apply_records_unique(t, ts, rs, (k - 1) as nat);
        let p = apply_records(t, ts, rs, (k - 1) as nat);
        let ev = EventM { ts, record: rs[k - 1] };
        assert(record_keys_unique(rs[k - 1]));
        match ev.record {
            RecordM::Node(NodeBaseM::ID(id), _) => {
                if p.nodes.contains_key(id) {
                    lemma_node_add_history_unique(p.nodes[id], ev);
                    lemma_insert_unique(p.nodes, id, node_add_history(p.nodes[id], ev));
                }
            },
            RecordM::Node(NodeBaseM::Create(n), _) => {
                lemma_node_add_history_unique(n, ev);
                lemma_insert_unique(p.nodes, n.id, node_add_history(n, ev));
            },
            RecordM::Edge(EdgeBaseM::ID(id), _) => {
                if p.edges.contains_key(id) {
                    let old_e = p.edges[id];
                    lemma_detach_upto_unique(p.nodes, old_e, edge_participants(old_e.kind).len());
                    let d = detach(p.nodes, old_e);
                    lemma_attach_upto_unique(d, edge_add_history(old_e, ev), ev, edge_participants(edge_add_history(old_e, ev).kind).len());
                }
            },
            RecordM::Edge(EdgeBaseM::Create(e0), _) => {
                lemma_attach_upto_unique(p.nodes, edge_add_history(e0, ev), ev, edge_participants(edge_add_history(e0, ev).kind).len());
            },
        }
    }
}

impl EdgeKind {
    /// The nodes that this edge links.
    pub fn participants(&self) -> (r: Vec<NodeID>)
        ensures
            r@ == edge_participants(self@),
    {
        match self {
            EdgeKind::Equality(ids) => crate::compare::copy_ids(ids),
            EdgeKind::Definition { object, label } => vec![*object, *label],
            EdgeKind::Using { client, object } => vec![*client, *object],
            EdgeKind::Contains { container, object } => vec![*container, *object],
            EdgeKind::Reference { dest, blob: _ } => vec![*dest],
        }
    }
}

impl WorldView {
    /// An empty world view.
    pub fn new() -> (r: WorldView)
        ensures
            r.wf(),
            r@.tables.nodes == Map::<NodeID, NodeM>::empty(),
            r@.tables.edges == Map::<EdgeID, EdgeM>::empty(),
            r@.log == Seq::<TransactionM>::empty(),
            r@.sources == Seq::<(SourceID, SourceEntry)>::empty(),
    {
        let r = WorldView {
            transactions: Vec::new(),
            nodes: Vec::new(),
            edges: Vec::new(),
            sources: Vec::new(),
        };
        assert(r@.tables.nodes =~= Map::<NodeID, NodeM>::empty());
        assert(r@.tables.edges =~= Map::<EdgeID, EdgeM>::empty());
        assert(r@.log =~= Seq::<TransactionM>::empty());
        r
    }

    /// Where the node of identifier `id` stands in the table.
    fn find_node(&self, id: &NodeID) -> (r: Option<usize>)
        requires
            self.wf(),
        ensures
            match r {
                Some(i) => i < self.nodes.len() && self.nodes[i as int].id == *id
                    && self@.tables.nodes.contains_key(*id) && self@.tables.nodes[*id]
                    == self.nodes[i as int]@,
                None => !self@.tables.nodes.contains_key(*id),
            },
    {
        let mut i: usize = 0;
        while i < self.nodes.len()
            invariant
                i <= self.nodes.len(),
                self.wf(),
                forall|j: int| 0 <= j < i ==> self.nodes[j].id != *id,
            decreases self.nodes.len() - i,
        {
            if self.nodes[i].id.eq(id) {
                proof {
                    lemma_table_index(self.node_seq(), node_key(), i as int);
                }
                return Some(i);
            }
            i = i + 1;
        }
        assert(!has_entry(self.node_seq(), node_key(), *id));
        None
    }

    /// Where the edge of identifier `id` stands in the table.
    fn find_edge(&self, id: &EdgeID) -> (r: Option<usize>)
        requires
            self.wf(),
        ensures
            match r {
                Some(i) => i < self.edges.len() && self.edges[i as int].id == *id
                    && self@.tables.edges.contains_key(*id) && self@.tables.edges[*id]
                    == self.edges[i as int]@,
                None => !self@.tables.edges.contains_key(*id),
            },
    {
        let mut i: usize = 0;
        while i < self.edges.len()
            invariant
                i <= self.edges.len(),
                self.wf(),
                forall|j: int| 0 <= j < i ==> self.edges[j].id != *id,
            decreases self.edges.len() - i,
        {
            if self.edges[i].id.eq(id) {
                proof {
                    lemma_table_index(self.edge_seq(), edge_key(), i as int);
                }
                return Some(i);
            }
            i = i + 1;
        }
        assert(!has_entry(self.edge_seq(), edge_key(), *id));
        None
    }

    /// Stores a node under its identifier, replacing any node stored there.
    fn put_node(&mut self, n: Node)
        requires
            old(self).wf(),
        ensures
            final(self).wf(),
            final(self)@ == (WorldViewM {
                tables: Tables { nodes: old(self)@.tables.nodes.insert(n@.id, n@), ..old(self)@.tables },
                ..old(self)@
            }),
    {
        let ghost s = self.node_seq();
        let ghost nv = n@;
        match self.find_node(&n.id) {
            Some(i) => {
                self.nodes.set(i, n);
                proof {
                    lemma_table_update(s, node_key(), i as int, nv);
                    assert(self.node_seq() =~= s.update(i as int, nv));
                }
            },
            None => {
                self.nodes.push(n);
                proof {
                    lemma_table_push(s, node_key(), nv);
                    assert(self.node_seq() =~= s.push(nv));
                }
            },
        }
        assert(self@.log =~= old(self)@.log);
    }

    /// Stores an edge under its identifier, replacing any edge stored there.
    fn put_edge(&mut self, e: Edge)
        requires
            old(self).wf(),
        ensures
            final(self).wf(),
            final(self)@ == (WorldViewM {
                tables: Tables { edges: old(self)@.tables.edges.insert(e@.id, e@), ..old(self)@.tables },
                ..old(self)@
            }),
    {
        let ghost s = self.edge_seq();
        let ghost ev = e@;
        match self.find_edge(&e.id) {
            Some(i) => {
                self.edges.set(i, e);
                proof {
                    lemma_table_update(s, edge_key(), i as int, ev);
                    assert(self.edge_seq() =~= s.update(i as int, ev));
                }
            },
            None => {
                self.edges.push(e);
                proof {
                    lemma_table_push(s, edge_key(), ev);
                    assert(self.edge_seq() =~= s.push(ev));
                }
            },
        }
        assert(self@.log =~= old(self)@.log);
    }

    /// A copy of the node of identifier `id`, if there is one.
    pub fn get_node(&self, id: &NodeID) -> (r: Option<Node>)
        requires
            self.wf(),
        ensures
            match r {
                Some(n) => self@.tables.nodes.contains_key(*id) && n@ == self@.tables.nodes[*id],
                None => !self@.tables.nodes.contains_key(*id),
            },
    {
        match self.find_node(id) {
            Some(i) => Some(copy_node(&self.nodes[i])),
            None => None,
        }
    }

    /// A copy of the edge of identifier `id`, if there is one.
    pub fn get_edge(&self, id: &EdgeID) -> (r: Option<Edge>)
        requires
            self.wf(),
        ensures
            match r {
                Some(e) => self@.tables.edges.contains_key(*id) && e@ == self@.tables.edges[*id],
                None => !self@.tables.edges.contains_key(*id),
            },
    {
        match self.find_edge(id) {
            Some(i) => Some(copy_edge(&self.edges[i])),
            None => None,
        }
    }
    /// Removes edge `edge` from the edge lists of the nodes it links.
    fn remove_edge_from_nodes(&mut self, edge: &Edge)
        requires
            old(self).wf(),
        ensures
            final(self).wf(),
            final(self)@ == (WorldViewM {
                tables: Tables { nodes: detach(old(self)@.tables.nodes, edge@), ..old(self)@.tables },
                ..old(self)@
            }),
    {
        let ps = edge.kind.participants();
        let ghost start = self@;
        let mut i: usize = 0;
        while i < ps.len()
            invariant
                self.wf(),
                i <= ps.len(),
                ps@ == edge_participants(edge@.kind),
                self@ == (WorldViewM {
                    tables: Tables { nodes: detach_upto(start.tables.nodes, edge@, i as nat), ..start.tables },
                    ..start
                }),
            decreases ps.len() - i,
        {
            if let Some(j) = self.find_node(&ps[i]) {
                let mut n = copy_node(&self.nodes[j]);
                remove_edge_entry(&mut n.edges, edge.id);
                self.put_node(n);
            }
            i = i + 1;
        }
    }

    /// Enters edge `edge` in the edge lists of the nodes it links, and
    /// appends the event to their histories.
    fn apply_edge_to_nodes(&mut self, re: &RecordEvent, edge: &Edge)
        requires
            old(self).wf(),
            re@.record is Edge,
        ensures
            final(self).wf(),
            final(self)@ == (WorldViewM {
                tables: Tables { nodes: attach(old(self)@.tables.nodes, edge@, re@), ..old(self)@.tables },
                ..old(self)@
            }),
    {
        let ps = edge.kind.participants();
        let ghost start = self@;
        let mut i: usize = 0;
        while i < ps.len()
            invariant
                self.wf(),
                i <= ps.len(),
                ps@ == edge_participants(edge@.kind),
                self@ == (WorldViewM {
                    tables: Tables {
                        nodes: attach_upto(start.tables.nodes, edge@, re@, i as nat),
                        ..start.tables
                    },
                    ..start
                }),
            decreases ps.len() - i,
        {
            if let Some(j) = self.find_node(&ps[i]) {
                let mut n = copy_node(&self.nodes[j]);
                set_edge_entry(&mut n.edges, edge.id, &edge.kind);
                let ghost before = n@;
                n.add_history(copy_event(re));
                proof {
                    lemma_node_add_history_shape(before, re@);
                }
                self.put_node(n);
            }
            i = i + 1;
        }
    }

    /// Applies one event to the tables.
    fn apply_event(&mut self, ev: RecordEvent)
        requires
            old(self).wf(),
        ensures
            final(self).wf(),
            final(self)@ == (WorldViewM { tables: apply_record(old(self)@.tables, ev@), ..old(self)@ }),
    {
        match &ev.1 {
            Record::Node(c) => match &c.base {
                Base::ID(id) => {
                    if let Some(j) = self.find_node(id) {
                        let mut n = copy_node(&self.nodes[j]);
                        let ghost before = n@;
                        n.add_history(copy_event(&ev));
                        proof {
                            lemma_node_add_history_shape(before, ev@);
                        }
                        self.put_node(n);
                    }
                },
                Base::Create(n0) => {
                    let mut n = copy_node(n0);
                    let ghost before = n@;
                    n.add_history(copy_event(&ev));
                    proof {
                        lemma_node_add_history_shape(before, ev@);
                    }
                    self.put_node(n);
                },
            },
            Record::Edge(c) => match &c.base {
                Base::ID(id) => {
                    if let Some(j) = self.find_edge(id) {
                        let mut e = copy_edge(&self.edges[j]);
                        self.remove_edge_from_nodes(&e);
                        let ghost before = e@;
                        e.add_history(copy_event(&ev));
                        proof {
                            lemma_edge_add_history_shape(before, ev@);
                        }
                        self.apply_edge_to_nodes(&ev, &e);
                        self.put_edge(e);
                    }
                },
                Base::Create(e0) => {
                    let mut e = copy_edge(e0);
                    let ghost before = e@;
                    e.add_history(copy_event(&ev));
                    proof {
                        lemma_edge_add_history_shape(before, ev@);
                    }
                    self.apply_edge_to_nodes(&ev, &e);
                    self.put_edge(e);
                },
            },
        }
    }

    /// Replays one transaction: each record, in order, becomes an event
    /// stamped with the transaction's time and is applied to the tables; the
    /// transaction joins the log. Returns the targets of the node records and
    /// of the edge records, in order.
    pub fn do_tx(&mut self, tx: Transaction) -> (r: (Vec<NodeID>, Vec<EdgeID>))
        requires
            old(self).wf(),
        ensures
            final(self).wf(),
            final(self)@.tables == replay(old(self)@.tables, tx@),
            final(self)@.log == old(self)@.log.push(tx@),
            final(self)@.sources == old(self)@.sources,
            tables_keys_unique(old(self)@.tables) && (forall|i: int|
                0 <= i < tx@.records.len() ==> record_keys_unique(#[trigger] tx@.records[i]))
                ==> tables_keys_unique(final(self)@.tables),
            r.0@ == touched_nodes(tx@.records, tx@.records.len()),
            r.1@ == touched_edges(tx@.records, tx@.records.len()),
    {
        let ghost start = self@;
        let mut nids: Vec<NodeID> = Vec::new();
        let mut eids: Vec<EdgeID> = Vec::new();
        let mut i: usize = 0;
        while i < tx.records.len()
            invariant
                self.wf(),
                i <= tx.records.len(),
                self@ == (WorldViewM {
                    tables: apply_records(start.tables, tx.timestamp, tx@.records, i as nat),
                    ..start
                }),
                nids@ == touched_nodes(tx@.records, i as nat),
                eids@ == touched_edges(tx@.records, i as nat),
            decreases tx.records.len() - i,
        {
            let ev = RecordEvent(tx.timestamp, copy_record(&tx.records[i]));
            self.apply_event(ev);
            match &tx.records[i] {
                Record::Node(c) => {
                    nids.push(c.get_id());
                },
                Record::Edge(c) => {
                    eids.push(c.get_id());
                },
            }
            i = i + 1;
        }
        proof {
            if tables_keys_unique(start.tables) && (forall|i: int|
                0 <= i < tx@.records.len() ==> record_keys_unique(#[trigger] tx@.records[i])) {
                lemma_apply_records_unique(start.tables, tx.timestamp, tx@.records, tx@.records.len());
            }
        }
        let ghost log = self@.log;
        self.transactions.push(tx);
        assert(self@.log =~= log.push(tx@));
        (nids, eids)
    }
    /// Replays the transactions in order. Returns them, with the targets of
    /// their node records and of their edge records, in order.
    pub fn process_updates(&mut self, txs: Vec<Transaction>) -> (r: (
        Vec<Transaction>,
        Vec<NodeID>,
        Vec<EdgeID>,
    ))
        requires
            old(self).wf(),
        ensures
            final(self).wf(),
            final(self)@.tables == replay_all(
                old(self)@.tables,
                transactions_view(txs),
                txs.len() as nat,
            ),
            final(self)@.log == old(self)@.log + transactions_view(txs),
            final(self)@.sources == old(self)@.sources,
            transactions_view(r.0) == transactions_view(txs),
            r.1@ == touched_nodes_all(transactions_view(txs), txs.len() as nat),
            r.2@ == touched_edges_all(transactions_view(txs), txs.len() as nat),
    {
        let ghost start = self@;
        let ghost tv = transactions_view(txs);
        let mut nodes: Vec<NodeID> = Vec::new();
        let mut edges: Vec<EdgeID> = Vec::new();
        let mut i: usize = 0;
        while i < txs.len()
            invariant
                self.wf(),
                i <= txs.len(),
                tv == transactions_view(txs),
                self@.tables == replay_all(start.tables, tv, i as nat),
                self@.log == start.log + tv.take(i as int),
                self@.sources == start.sources,
                nodes@ == touched_nodes_all(tv, i as nat),
                edges@ == touched_edges_all(tv, i as nat),
            decreases txs.len() - i,
        {
            let (mut ns, mut es) = self.do_tx(copy_transaction(&txs[i]));
            assert(tv.take(i as int + 1) =~= tv.take(i as int).push(tv[i as int]));
            nodes.append(&mut ns);
            edges.append(&mut es);
            i = i + 1;
        }
        assert(tv.take(txs.len() as int) =~= tv);
        (txs, nodes, edges)
    }

    /// The first node that a run of transactions creates, if any.
    fn first_node(txs: &Vec<Transaction>) -> (r: Option<NodeID>)
        ensures
            r == first_created(transactions_view(*txs)),
    {
        let ghost tv = transactions_view(*txs);
        let mut i: usize = 0;
        while i < txs.len()
            invariant
                i <= txs.len(),
                tv == transactions_view(*txs),
                created_nodes_all(tv, i as nat).len() == 0,
            decreases txs.len() - i,
        {
            let recs = &txs[i].records;
            let ghost rs = tv[i as int].records;
            let mut j: usize = 0;
            while j < recs.len()
                invariant
                    i < txs.len(),
                    j <= recs.len(),
                    tv == transactions_view(*txs),
                    rs == tv[i as int].records,
                    recs@.len() == rs.len(),
                    *recs == txs[i as int].records,
                    created_nodes_all(tv, i as nat).len() == 0,
                    created_nodes(rs, j as nat).len() == 0,
                decreases recs.len() - j,
            {
                if let Record::Node(c) = &recs[j] {
                    if let Base::Create(n) = &c.base {
                        let id = n.id;
                        proof {
                            lemma_created_nodes_prefix(rs, (j + 1) as nat, rs.len());
                            lemma_created_nodes_all_prefix(tv, (i + 1) as nat, txs.len() as nat);
                            assert(created_nodes_all(tv, (i + 1) as nat) =~= created_nodes(rs, rs.len()));
                        }
                        return Some(id);
                    }
                }
                j = j + 1;
            }
            i = i + 1;
        }
        None
    }

    /// Registers a source from what its first drain produced: replays the
    /// transactions and records the first node they create as the source's
    /// root. A run that creates no node is refused, and nothing changes.
    pub fn add_source(&mut self, capabilities: SourceCapabilities, txs: Vec<Transaction>) -> (r:
        Result<NodeID, WorldViewError>)
        requires
            old(self).wf(),
        ensures
            final(self).wf(),
            r is Err <==> first_created(transactions_view(txs)) is None,
            r is Err ==> r == Err::<NodeID, WorldViewError>(WorldViewError::NoRootNode),
            r is Err ==> final(self)@ == old(self)@,
            r matches Ok(root) ==> {
                &&& first_created(transactions_view(txs)) == Some(root)
                &&& final(self)@.tables == replay_all(
                    old(self)@.tables,
                    transactions_view(txs),
                    txs.len() as nat,
                )
                &&& final(self)@.log == old(self)@.log + transactions_view(txs)
                &&& final(self)@.sources == assoc_set(
                    old(self)@.sources,
                    capabilities.id,
                    SourceEntry { capabilities, root },
                )
            },
    {
        match Self::first_node(&txs) {
            None => Err(WorldViewError::NoRootNode),
            Some(root) => {
                self.process_updates(txs);
                let entry = SourceEntry { capabilities, root };
                let ghost s = self.sources@;
                let mut out: Vec<(SourceID, SourceEntry)> = Vec::new();
                let mut found = false;
                let mut i: usize = 0;
                while i < self.sources.len()
                    invariant
                        i <= self.sources.len(),
                        s == self.sources@,
                        out.len() == i,
                        found == exists|j: int| 0 <= j < i && #[trigger] s[j].0 == capabilities.id,
                        forall|j: int|
                            0 <= j < i ==> out@[j] == (if s[j].0 == capabilities.id {
                                (capabilities.id, entry)
                            } else {
                                s[j]
                            }),
                    decreases self.sources.len() - i,
                {
                    if self.sources[i].0.eq(&capabilities.id) {
                        out.push((capabilities.id, entry));
                        found = true;
                    } else {
                        out.push(self.sources[i]);
                    }
                    i = i + 1;
                }
                if found {
                    assert(out@ =~= assoc_set(s, capabilities.id, entry));
                } else {
                    assert(out@ =~= s);
                    out.push((capabilities.id, entry));
                }
                self.sources = out;
                Ok(root)
            },
        }
    }

    /// The root node of every registered source, in order of registration.
    pub fn root_nodes(&self) -> (r: Vec<NodeID>)
        ensures
            r@ == self@.sources.map_values(|p: (SourceID, SourceEntry)| p.1.root),
    {
        let mut r: Vec<NodeID> = Vec::new();
        let mut i: usize = 0;
        while i < self.sources.len()
            invariant
                i <= self.sources.len(),
                r@ == self@.sources.take(i as int).map_values(|p: (SourceID, SourceEntry)| p.1.root),
            decreases self.sources.len() - i,
        {
            r.push(self.sources[i].1.root);
            assert(self@.sources.take(i as int + 1) =~= self@.sources.take(i as int).push(self.sources@[i as int]));
            i = i + 1;
        }
        assert(self@.sources.take(i as int) =~= self@.sources);
        r
    }

    /// What this world view keeps of the source of identifier `id`.
    pub fn source(&self, id: &SourceID) -> (r: Option<SourceEntry>)
        ensures
            match r {
                Some(e) => exists|i: int| 0 <= i < self@.sources.len() && #[trigger] self@.sources[i] == (*id, e),
                None => !has_key(self@.sources, *id),
            },
    {
        let mut i: usize = 0;
        while i < self.sources.len()
            invariant
                i <= self.sources.len(),
                forall|j: int| 0 <= j < i ==> self@.sources[j].0 != *id,
            decreases self.sources.len() - i,
        {
            if self.sources[i].0.eq(id) {
                assert(self@.sources[i as int] == (*id, self.sources[i as int].1));
                return Some(self.sources[i].1);
            }
            i = i + 1;
        }
        None
    }
}

/// The nodes created by a prefix of the records are a prefix of those of a
/// longer prefix.
proof fn lemma_created_nodes_prefix(rs: Seq<RecordM>, j: nat, k: nat)
    requires
        j <= k <= rs.len(),
    ensures
        created_nodes(rs, j).len() <= created_nodes(rs, k).len(),
        forall|i: int| 0 <= i < created_nodes(rs, j).len() ==> created_nodes(rs, k)[i] == created_nodes(rs, j)[i],
    decreases k - j,
{
    if j < k {
        lemma_created_nodes_prefix(rs, j, (k - 1) as nat);
    }
}

/// Likewise over transactions.
proof fn lemma_created_nodes_all_prefix(txs: Seq<TransactionM>, j: nat, k: nat)
    requires
        j <= k <= txs.len(),
    ensures
        created_nodes_all(txs, j).len() <= created_nodes_all(txs, k).len(),
        forall|i: int| 0 <= i < created_nodes_all(txs, j).len() ==> created_nodes_all(txs, k)[i] == created_nodes_all(txs, j)[i],
    decreases k - j,
{
    if j < k {
        lemma_created_nodes_all_prefix(txs, j, (k - 1) as nat);
    }
}


impl WorldView {
    /// Hands transactions written elsewhere to the world view: they are
    /// replayed here, and the result says whether source `sid` is registered,
    /// so that they are to be forwarded to it as well.
    pub fn add_transactions(&mut self, sid: &SourceID, txs: Vec<Transaction>) -> (forward: bool)
        requires
            old(self).wf(),
        ensures
            final(self).wf(),
            forward == has_key(old(self)@.sources, *sid),
            final(self)@.tables == replay_all(
                old(self)@.tables,
                transactions_view(txs),
                txs.len() as nat,
            ),
            final(self)@.log == old(self)@.log + transactions_view(txs),
            final(self)@.sources == old(self)@.sources,
    {
        let registered = match self.source(sid) {
            Some(e) => {
                proof {
                    let i = choose|i: int| 0 <= i < self@.sources.len() && #[trigger] self@.sources[i] == (*sid, e);
                    assert(self@.sources[i].0 == *sid);
                }
                true
            },
            None => false,
        };
        self.process_updates(txs);
        registered
    }

    /// Every stored node and edge is stored under its own identifier.
    pub proof fn lemma_stored_keys(&self)
        requires
            self.wf(),
        ensures
            forall|id: NodeID| #[trigger] self@.tables.nodes.contains_key(id) ==> self@.tables.nodes[id].id == id,
            forall|id: EdgeID| #[trigger] self@.tables.edges.contains_key(id) ==> self@.tables.edges[id].id == id,
    {
        assert forall|id: NodeID| #[trigger] self@.tables.nodes.contains_key(id) implies self@.tables.nodes[id].id == id by {
            let i = choose|i: int| 0 <= i < self.node_seq().len() && (node_key())(#[trigger] self.node_seq()[i]) == id;
            lemma_table_index(self.node_seq(), node_key(), i);
        }
        assert forall|id: EdgeID| #[trigger] self@.tables.edges.contains_key(id) implies self@.tables.edges[id].id == id by {
            let i = choose|i: int| 0 <= i < self.edge_seq().len() && (edge_key())(#[trigger] self.edge_seq()[i]) == id;
            lemma_table_index(self.edge_seq(), edge_key(), i);
        }
    }
}

} // verus!
