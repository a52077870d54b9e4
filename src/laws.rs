//! Properties of replay that hold for every state and every input.
use vstd::prelude::*;

use crate::entity::{
    apply_actions, assoc_remove, assoc_set, edge_add_history, has_key, key_differs, lemma_node_add_history_shape,
    node_add_history, node_base_id,
};
use crate::ids::{EdgeID, NodeID, SourceID};
use crate::structs::{EdgeActionM, EdgeBaseM, EdgeKindM, EdgeM, EventM, NodeBaseM, NodeM, RecordM, TransactionM};
use crate::worldview::{
    apply_record, apply_records, replay, attach, attach_one, attach_upto, detach, detach_one, detach_upto,
    edge_participants, SourceEntry, Tables,
};

verus! {

/// Every entry of `s` with key `k` holds `v`, and there is at least one.
pub open spec fn entry_is<K, V>(s: Seq<(K, V)>, k: K, v: V) -> bool {
    &&& has_key(s, k)
    &&& forall|i: int| 0 <= i < s.len() && #[trigger] s[i].0 == k ==> s[i].1 == v
}

proof fn lemma_assoc_set_entry<K, V>(s: Seq<(K, V)>, k: K, v: V)
    ensures
        entry_is(assoc_set(s, k, v), k, v),
{
    let t = assoc_set(s, k, v);
    if has_key(s, k) {
        let i = choose|i: int| 0 <= i < s.len() && #[trigger] s[i].0 == k;
        assert(t[i].0 == k);
    } else {
        assert(t[s.len() as int].0 == k);
        assert forall|i: int| 0 <= i < t.len() && #[trigger] t[i].0 == k implies t[i].1 == v by {
            if i < s.len() {
                assert(t[i] == s[i]);
            }
        }
    }
}

proof fn lemma_assoc_remove_absent<K, V>(s: Seq<(K, V)>, k: K)
    ensures
        !has_key(assoc_remove(s, k), k),
{
    let t = assoc_remove(s, k);
    assert forall|i: int| 0 <= i < t.len() implies #[trigger] t[i].0 != k by {
        s.lemma_filter_pred(key_differs(k), i);
    }
}

/// What attaching the first `k` participants of `e` does: every one of them
/// that is stored holds `e`'s kind under `e`'s identifier, every other node
/// is unchanged, and no node comes or goes.
proof fn lemma_attach_upto(nodes: Map<NodeID, NodeM>, e: EdgeM, ev: EventM, k: nat)
    requires
        k <= edge_participants(e.kind).len(),
    ensures
        attach_upto(nodes, e, ev, k).dom() == nodes.dom(),
        forall|p: NodeID|
            #![trigger attach_upto(nodes, e, ev, k)[p]]
            nodes.contains_key(p) && !edge_participants(e.kind).take(k as int).contains(p)
                ==> attach_upto(nodes, e, ev, k)[p] == nodes[p],
        forall|p: NodeID|
            #![trigger attach_upto(nodes, e, ev, k)[p]]
            nodes.contains_key(p) && edge_participants(e.kind).take(k as int).contains(p)
                ==> entry_is(attach_upto(nodes, e, ev, k)[p].edges, e.id, e.kind),
    decreases k,
{
    let ps = edge_participants(e.kind);
    if k > 0 {
        let prev = attach_upto(nodes, e, ev, (k - 1) as nat);
        lemma_attach_upto(nodes, e, ev, (k - 1) as nat);
        let q = ps[k - 1];
        let cur = attach_upto(nodes, e, ev, k);
        assert(cur == attach_one(prev, q, e, ev));
        assert(ps.take(k as int) =~= ps.take(k - 1).push(q));
        if prev.contains_key(q) {
            let m = NodeM { edges: assoc_set(prev[q].edges, e.id, e.kind), ..prev[q] };
            lemma_node_add_history_shape(m, ev);
            lemma_assoc_set_entry(prev[q].edges, e.id, e.kind);
            assert(cur.dom() =~= prev.dom());
        }
        assert forall|p: NodeID|
            nodes.contains_key(p) && !ps.take(k as int).contains(p) implies #[trigger] cur[p]
            == nodes[p] by {
            assert(ps.take(k as int)[k - 1] == q);
            if ps.take(k - 1).contains(p) {
                let i = choose|i: int| 0 <= i < k - 1 && #[trigger] ps.take(k - 1)[i] == p;
                assert(ps.take(k as int)[i] == p);
            }
        }
        assert forall|p: NodeID|
            nodes.contains_key(p) && ps.take(k as int).contains(p) implies entry_is(
            #[trigger] cur[p].edges,
            e.id,
            e.kind,
        ) by {
            if p != q {
                let i = choose|i: int| 0 <= i < k && #[trigger] ps.take(k as int)[i] == p;
                assert(ps.take(k - 1)[i] == p);
            }
        }
    } else {
        assert forall|p: NodeID| !edge_participants(e.kind).take(0).contains(p) by {}
    }
}

/// What detaching the first `k` participants of `e` does: none of them that
/// is stored holds an entry under `e`'s identifier, every other node is
/// unchanged, and no node comes or goes.
proof fn lemma_detach_upto(nodes: Map<NodeID, NodeM>, e: EdgeM, k: nat)
    requires
        k <= edge_participants(e.kind).len(),
    ensures
        detach_upto(nodes, e, k).dom() == nodes.dom(),
        forall|p: NodeID|
            #![trigger detach_upto(nodes, e, k)[p]]
            nodes.contains_key(p) && !edge_participants(e.kind).take(k as int).contains(p)
                ==> detach_upto(nodes, e, k)[p] == nodes[p],
        forall|p: NodeID|
            #![trigger detach_upto(nodes, e, k)[p]]
            nodes.contains_key(p) && edge_participants(e.kind).take(k as int).contains(p)
                ==> !has_key(detach_upto(nodes, e, k)[p].edges, e.id),
    decreases k,
{
    let ps = edge_participants(e.kind);
    if k > 0 {
        let prev = detach_upto(nodes, e, (k - 1) as nat);
        lemma_detach_upto(nodes, e, (k - 1) as nat);
        let q = ps[k - 1];
        let cur = detach_upto(nodes, e, k);
        assert(cur == detach_one(prev, q, e.id));
        assert(ps.take(k as int) =~= ps.take(k - 1).push(q));
        if prev.contains_key(q) {
            lemma_assoc_remove_absent(prev[q].edges, e.id);
            assert(cur.dom() =~= prev.dom());
        }
        assert forall|p: NodeID|
            nodes.contains_key(p) && !ps.take(k as int).contains(p) implies #[trigger] cur[p]
            == nodes[p] by {
            assert(ps.take(k as int)[k - 1] == q);
            if ps.take(k - 1).contains(p) {
                let i = choose|i: int| 0 <= i < k - 1 && #[trigger] ps.take(k - 1)[i] == p;
                assert(ps.take(k as int)[i] == p);
            }
        }
        assert forall|p: NodeID|
            nodes.contains_key(p) && ps.take(k as int).contains(p) implies !has_key(
            #[trigger] cur[p].edges,
            e.id,
        ) by {
            if p != q {
                let i = choose|i: int| 0 <= i < k && #[trigger] ps.take(k as int)[i] == p;
                assert(ps.take(k - 1)[i] == p);
            }
        }
    } else {
        assert forall|p: NodeID| !edge_participants(e.kind).take(0).contains(p) by {}
    }
}

/// Back-references after an edge is created: every node that the edge links
/// and that is stored holds the edge's kind under the edge's identifier.
pub proof fn lemma_back_references_on_create(t: Tables, ev: EventM, e0: EdgeM, us: Seq<crate::structs::EdgeActionM>, p: NodeID)
    requires
        ev.record == RecordM::Edge(EdgeBaseM::Create(e0), us),
        t.nodes.contains_key(p),
        edge_participants(edge_add_history(e0, ev).kind).contains(p),
    ensures
        apply_record(t, ev).nodes.contains_key(p),
        entry_is(
            apply_record(t, ev).nodes[p].edges,
            e0.id,
            edge_add_history(e0, ev).kind,
        ),
{
    let e = edge_add_history(e0, ev);
    crate::entity::lemma_edge_add_history_shape(e0, ev);
    let n = edge_participants(e.kind).len();
    lemma_attach_upto(t.nodes, e, ev, n);
    assert(edge_participants(e.kind).take(n as int) =~= edge_participants(e.kind));
}

/// Back-references after an edge is updated, its kind perhaps changed: a
/// stored node that the new kind links holds the new kind under the edge's
/// identifier, and a stored node that only the old kind linked holds no
/// entry for the edge any more.
pub proof fn lemma_back_references_on_update(t: Tables, ev: EventM, id: EdgeID, us: Seq<crate::structs::EdgeActionM>, p: NodeID)
    requires
        ev.record == RecordM::Edge(EdgeBaseM::ID(id), us),
        t.edges.contains_key(id),
        t.edges[id].id == id,
        t.nodes.contains_key(p),
    ensures
        ({
            let old_kind = t.edges[id].kind;
            let new_kind = edge_add_history(t.edges[id], ev).kind;
            &&& apply_record(t, ev).nodes.contains_key(p)
            &&& edge_participants(new_kind).contains(p) ==> entry_is(
                apply_record(t, ev).nodes[p].edges,
                id,
                new_kind,
            )
            &&& edge_participants(old_kind).contains(p) && !edge_participants(new_kind).contains(p)
                ==> !has_key(apply_record(t, ev).nodes[p].edges, id)
        }),
{
    let old_e = t.edges[id];
    let e = edge_add_history(old_e, ev);
    crate::entity::lemma_edge_add_history_shape(old_e, ev);
    let no = edge_participants(old_e.kind).len();
    let nn = edge_participants(e.kind).len();
    lemma_detach_upto(t.nodes, old_e, no);
    assert(edge_participants(old_e.kind).take(no as int) =~= edge_participants(old_e.kind));
    let d = detach(t.nodes, old_e);
    lemma_attach_upto(d, e, ev, nn);
    assert(edge_participants(e.kind).take(nn as int) =~= edge_participants(e.kind));
    assert(d.contains_key(p));
    let r = apply_record(t, ev).nodes;
    assert(r == attach_upto(d, e, ev, nn));
    if edge_participants(old_e.kind).contains(p) && !edge_participants(e.kind).contains(p) {
        assert(!edge_participants(e.kind).take(nn as int).contains(p));
        assert(edge_participants(old_e.kind).take(no as int).contains(p));
        assert(r[p] == d[p]);
        assert(d == detach_upto(t.nodes, old_e, no));
        assert(!has_key(d[p].edges, old_e.id));
    }
}

/// Source isolation, for roots: registering source `a` leaves every entry of
/// another source `b` where it was, and adds none for `b`.
pub proof fn lemma_source_isolation(
    sources: Seq<(SourceID, SourceEntry)>,
    a: SourceID,
    entry: SourceEntry,
    b: SourceID,
)
    requires
        a != b,
    ensures
        ({
            let after = assoc_set(sources, a, entry);
            &&& forall|i: int|
                0 <= i < sources.len() && #[trigger] sources[i].0 == b ==> after[i] == sources[i]
            &&& forall|i: int|
                0 <= i < after.len() && #[trigger] after[i].0 == b ==> i < sources.len() && after[i]
                    == sources[i]
        }),
{
}

/// Source isolation, for entities: two node records with different targets
/// give the same tables in either order of arrival.
pub proof fn lemma_node_records_commute(t: Tables, e1: EventM, e2: EventM)
    requires
        e1.record is Node,
        e2.record is Node,
        node_base_id(e1.record->Node_0) != node_base_id(e2.record->Node_0),
    ensures
        apply_record(apply_record(t, e1), e2) == apply_record(apply_record(t, e2), e1),
{
    let a = apply_record(apply_record(t, e1), e2);
    let b = apply_record(apply_record(t, e2), e1);
    assert(a.nodes =~= b.nodes);
    assert(a.edges =~= b.edges);
}

/// History idempotence in the tables: replaying the same node event a second
/// time leaves the tables as the first replay left them.
pub proof fn lemma_node_event_idempotent(t: Tables, ev: EventM)
    requires
        ev.record is Node,
    ensures
        apply_record(apply_record(t, ev), ev) == apply_record(t, ev),
{
    let once = apply_record(t, ev);
    let twice = apply_record(once, ev);
    if let RecordM::Node(NodeBaseM::ID(id), _) = ev.record {
        if t.nodes.contains_key(id) {
            crate::entity::lemma_node_history_idempotent(t.nodes[id], ev);
        }
    }
    assert(twice.nodes =~= once.nodes);
    assert(twice.edges =~= once.edges);
}

/// Back-references after a transaction that changes an edge's kind: unless
/// the event is the edge's last history entry already, the edge takes the
/// new kind, a stored node that the new kind links holds it under the edge's
/// identifier, and a stored node that only the old kind linked holds no
/// entry for the edge any more.
pub proof fn lemma_kind_change_in_transaction(
    t: Tables,
    tx: TransactionM,
    id: EdgeID,
    kind: EdgeKindM,
    p: NodeID,
)
    requires
        tx.records == seq![RecordM::Edge(EdgeBaseM::ID(id), seq![EdgeActionM::Kind(kind)])],
        t.edges.contains_key(id),
        t.edges[id].id == id,
        t.nodes.contains_key(p),
        !(t.edges[id].history.len() > 0 && t.edges[id].history.last() == (EventM {
            ts: tx.timestamp,
            record: tx.records[0],
        })),
    ensures
        replay(t, tx).edges[id].kind == kind,
        replay(t, tx).nodes.contains_key(p),
        edge_participants(kind).contains(p) ==> entry_is(replay(t, tx).nodes[p].edges, id, kind),
        edge_participants(t.edges[id].kind).contains(p) && !edge_participants(kind).contains(p)
            ==> !has_key(replay(t, tx).nodes[p].edges, id),
{
    let ev = EventM { ts: tx.timestamp, record: tx.records[0] };
    assert(replay(t, tx) == apply_record(t, ev)) by {
        assert(apply_records(t, tx.timestamp, tx.records, 0) == t);
    }
    let old_e = t.edges[id];
    let pushed = EdgeM { history: old_e.history.push(ev), ..old_e };
    let acts = seq![EdgeActionM::Kind(kind)];
    assert(apply_actions(pushed, acts, 0) == pushed);
    assert(edge_add_history(old_e, ev).kind == kind);
    lemma_back_references_on_update(t, ev, id, acts, p);
}

} // verus!
