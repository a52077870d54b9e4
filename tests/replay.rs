use datahog::compare::eq_node;
use datahog::create::clock_to_timestamp;
use datahog::ids::{EdgeID, NodeID, SourceID};
use datahog::structs::{
    Base, Edge, EdgeAction, EdgeKind, Node, NodeKind, NodeUpdate, Record, RecordCUD, RecordEvent,
    Transaction, Validity,
};
use datahog::worldview::{SourceCapabilities, WorldView, WorldViewError};

fn node_update(id: NodeID, updates: Vec<NodeUpdate>) -> Transaction {
    Transaction {
        timestamp: 10,
        records: vec![Record::Node(RecordCUD { base: Base::ID(id), updates })],
    }
}

fn edge_update(id: EdgeID, updates: Vec<EdgeAction>) -> Transaction {
    Transaction {
        timestamp: 20,
        records: vec![Record::Edge(RecordCUD { base: Base::ID(id), updates })],
    }
}

fn edge_of(kind: EdgeKind) -> Edge {
    Edge { id: EdgeID::rnd(), kind, validity: Validity::From(0), history: vec![] }
}

fn entry(node: &Node, id: EdgeID) -> Vec<EdgeKind> {
    node.edges.iter().filter(|(e, _)| *e == id).map(|(_, k)| k.clone()).collect()
}

fn caps() -> SourceCapabilities {
    SourceCapabilities { id: SourceID::rnd(), auto_fetch: true, accepts_txs: false, can_search: false }
}

#[test]
fn update_by_id_sets_label_and_extends_history() {
    let mut wv = WorldView::new();
    let n1 = Node::label("A");
    let id = n1.id;
    wv.do_tx(Transaction::create_node(n1));
    wv.do_tx(node_update(id, vec![NodeUpdate::Label("B".to_string())]));
    let n = wv.get_node(&id).unwrap();
    assert_eq!(n.label, "B");
    assert_eq!(n.history.len(), 2);
}

#[test]
fn update_of_unknown_edge_is_dropped() {
    let mut wv = WorldView::new();
    let id = EdgeID::rnd();
    let (nodes, edges) = wv.do_tx(edge_update(id, vec![EdgeAction::Delete]));
    assert!(nodes.is_empty());
    assert_eq!(edges, vec![id]);
    assert!(wv.get_edge(&id).is_none());
}

#[test]
fn definition_edge_is_entered_on_both_nodes() {
    let mut wv = WorldView::new();
    let a = Node::label("A");
    let b = Node::label("B");
    let (ida, idb) = (a.id, b.id);
    wv.do_tx(Transaction::create_node(a));
    wv.do_tx(Transaction::create_node(b));
    let kind = EdgeKind::Definition { object: ida, label: idb };
    let e = edge_of(kind.clone());
    let eid = e.id;
    wv.do_tx(Transaction::create_edge(e));
    assert_eq!(entry(&wv.get_node(&ida).unwrap(), eid), vec![kind.clone()]);
    assert_eq!(entry(&wv.get_node(&idb).unwrap(), eid), vec![kind.clone()]);
    assert_eq!(wv.get_edge(&eid).unwrap().kind, kind);
}

#[test]
fn same_event_twice_is_recorded_once() {
    let mut n = Node::label("A");
    let id = n.id;
    let ev = RecordEvent(
        5,
        Record::Node(RecordCUD {
            base: Base::ID(id),
            updates: vec![NodeUpdate::Migrate(3, vec![NodeUpdate::Label("x".to_string())])],
        }),
    );
    n.add_history(ev.clone());
    let once = n.clone();
    n.add_history(ev);
    assert_eq!(n.history.len(), 1);
    assert_eq!(n.op_version, 3);
    assert_eq!(n.label, "x");
    assert!(eq_node(&n, &once));
}

#[test]
fn same_transaction_twice_does_not_grow_history() {
    let mut wv = WorldView::new();
    let n1 = Node::label("A");
    let id = n1.id;
    wv.do_tx(Transaction::create_node(n1));
    let t = node_update(id, vec![NodeUpdate::Label("B".to_string())]);
    wv.do_tx(t.clone());
    wv.do_tx(t);
    assert_eq!(wv.get_node(&id).unwrap().history.len(), 2);
}

fn transition(from: EdgeKind, to: EdgeKind, ids: &[NodeID], wv: &mut WorldView) {
    let e = edge_of(from.clone());
    let eid = e.id;
    wv.do_tx(Transaction::create_edge(e));
    let old: Vec<NodeID> = from.participants();
    for p in &old {
        assert_eq!(entry(&wv.get_node(p).unwrap(), eid), vec![from.clone()]);
    }
    wv.do_tx(edge_update(eid, vec![EdgeAction::Kind(to.clone())]));
    let new: Vec<NodeID> = to.participants();
    for p in ids {
        let got = entry(&wv.get_node(p).unwrap(), eid);
        if new.contains(p) {
            assert_eq!(got, vec![to.clone()]);
        } else {
            assert!(got.is_empty());
        }
    }
    assert_eq!(wv.get_edge(&eid).unwrap().kind, to);
}

#[test]
fn back_references_follow_kind_changes() {
    let mut wv = WorldView::new();
    let nodes: Vec<Node> = (0..4).map(|i| Node::label(&format!("n{i}"))).collect();
    let ids: Vec<NodeID> = nodes.iter().map(|n| n.id).collect();
    for n in nodes {
        wv.do_tx(Transaction::create_node(n));
    }
    let (a, b, c, d) = (ids[0], ids[1], ids[2], ids[3]);
    let kinds = vec![
        EdgeKind::Contains { container: a, object: b },
        EdgeKind::Using { client: c, object: b },
        EdgeKind::Definition { object: d, label: a },
    ];
    for from in &kinds {
        for to in &kinds {
            if from != to {
                transition(from.clone(), to.clone(), &ids, &mut wv);
            }
        }
    }
}

#[test]
fn source_without_nodes_is_refused_and_changes_nothing() {
    let mut wv = WorldView::new();
    let e = edge_of(EdgeKind::Using { client: NodeID::rnd(), object: NodeID::rnd() });
    let eid = e.id;
    let r = wv.add_source(caps(), vec![Transaction::create_edge(e)]);
    assert_eq!(r, Err(WorldViewError::NoRootNode));
    assert!(wv.get_edge(&eid).is_none());
    assert!(wv.root_nodes().is_empty());
}

#[test]
fn sources_keep_their_own_roots() {
    let mut wv = WorldView::new();
    let (ca, cb) = (caps(), caps());
    let ra = Node::label("a");
    let rb = Node::label("b");
    let (ida, idb) = (ra.id, rb.id);
    assert_eq!(wv.add_source(ca, vec![Transaction::create_node(ra)]), Ok(ida));
    assert_eq!(wv.add_source(cb, vec![Transaction::create_node(rb)]), Ok(idb));
    wv.process_updates(vec![node_update(idb, vec![NodeUpdate::Label("c".to_string())])]);
    assert_eq!(wv.root_nodes(), vec![ida, idb]);
    assert_eq!(wv.source(&ca.id).unwrap().root, ida);
    assert_eq!(wv.get_node(&ida).unwrap().label, "a");
}

#[test]
fn arguments_are_set_replaced_and_removed() {
    let mut n = Node::init(NodeKind::Schema, "s".to_string());
    n.update(NodeUpdate::SetArgument("k".to_string(), datahog::structs::Argument::Int("1".to_string())));
    n.update(NodeUpdate::SetArgument("j".to_string(), datahog::structs::Argument::String("v".to_string())));
    n.update(NodeUpdate::SetArgument("k".to_string(), datahog::structs::Argument::Int("2".to_string())));
    assert_eq!(n.arguments.len(), 2);
    assert_eq!(n.arguments[0].1, datahog::structs::Argument::Int("2".to_string()));
    n.update(NodeUpdate::RemoveArgument("k".to_string()));
    assert_eq!(n.arguments.len(), 1);
    assert_eq!(n.arguments[0].0, "j");
    n.update(NodeUpdate::Data(vec![1, 2]));
    assert_eq!(n.data, datahog::structs::DataHash::Bytes(vec![1, 2]));
}

#[test]
fn node_records_on_different_nodes_commute() {
    let a = Node::label("a");
    let b = Node::label("b");
    let (ida, idb) = (a.id, b.id);
    let ta = node_update(ida, vec![NodeUpdate::Label("x".to_string())]);
    let tb = node_update(idb, vec![NodeUpdate::Label("y".to_string())]);
    let mut w1 = WorldView::new();
    let mut w2 = WorldView::new();
    for w in [&mut w1, &mut w2] {
        w.do_tx(Transaction { timestamp: 1, records: vec![] });
    }
    let (ca, cb) = (Transaction::create_node(a), Transaction::create_node(b));
    w1.process_updates(vec![ca.clone(), cb.clone(), ta.clone(), tb.clone()]);
    w2.process_updates(vec![cb, ca, tb, ta]);
    assert!(w1.get_node(&ida) == w2.get_node(&ida));
    assert!(w1.get_node(&idb) == w2.get_node(&idb));
    assert_eq!(w1.get_node(&ida).unwrap().label, "x");
}

#[test]
fn edge_actions_change_kind_and_validity() {
    let mut e = edge_of(EdgeKind::Reference { dest: NodeID::zero(), blob: Some(3) });
    e.update(EdgeAction::Validity(Validity::Period(1, 2)));
    e.update(EdgeAction::Kind(EdgeKind::Equality(vec![NodeID::zero()])));
    e.update(EdgeAction::Delete);
    assert_eq!(e.validity, Validity::Period(1, 2));
    assert_eq!(e.kind, EdgeKind::Equality(vec![NodeID::zero()]));
}

#[test]
fn equality_edges_link_every_member() {
    let mut wv = WorldView::new();
    let nodes: Vec<Node> = (0..3).map(|i| Node::label(&format!("m{i}"))).collect();
    let ids: Vec<NodeID> = nodes.iter().map(|n| n.id).collect();
    for n in nodes {
        wv.do_tx(Transaction::create_node(n));
    }
    let kind = EdgeKind::Equality(ids.clone());
    let e = edge_of(kind.clone());
    let eid = e.id;
    wv.do_tx(Transaction::create_edge(e));
    for id in &ids {
        let n = wv.get_node(id).unwrap();
        assert_eq!(entry(&n, eid), vec![kind.clone()]);
        assert_eq!(n.history.len(), 2);
    }
}

#[test]
fn fresh_identifiers_differ() {
    let (a, b) = (NodeID::rnd(), NodeID::rnd());
    assert_ne!(a, b);
    assert_ne!(a, NodeID::zero());
    assert_ne!(EdgeID::rnd(), EdgeID::rnd());
    assert_ne!(SourceID::rnd(), SourceID::zero());
}

#[test]
fn timestamps_are_recent() {
    let t = datahog::create::timestamp_now();
    assert!(t > 1_600_000_000_000_000_000);
    match Validity::from_now() {
        Validity::From(s) => assert!(s >= t),
        other => panic!("unexpected validity {other:?}"),
    }
    let tx = Transaction::create_node(Node::schema("s".to_string()));
    assert!(tx.timestamp >= t);
}

#[test]
fn new_nodes_start_empty() {
    let n = Node::mime("text/markdown".to_string(), "doc".to_string());
    assert_eq!(n.kind, NodeKind::MimeType("text/markdown".to_string()));
    assert_eq!(n.label, "doc");
    assert_eq!(n.op_version, 0);
    assert!(n.edges.is_empty() && n.arguments.is_empty() && n.history.is_empty());
    let e = Edge::contains(n.id, NodeID::zero());
    assert_eq!(e.kind, EdgeKind::Contains { container: n.id, object: NodeID::zero() });
    assert!(matches!(e.validity, Validity::From(_)));
}

#[test]
fn forwarded_transactions_are_replayed() {
    let mut wv = WorldView::new();
    let c = caps();
    let root = Node::label("r");
    let id = root.id;
    wv.add_source(c, vec![Transaction::create_node(root)]).unwrap();
    assert!(wv.add_transactions(&c.id, vec![node_update(id, vec![NodeUpdate::Label("s".to_string())])]));
    assert!(!wv.add_transactions(&SourceID::rnd(), vec![]));
    assert_eq!(wv.get_node(&id).unwrap().label, "s");
}

#[test]
fn clock_readings_become_timestamps() {
    assert_eq!(clock_to_timestamp(Ok(5)), 5);
    assert_eq!(clock_to_timestamp(Err(7)), -7);
    assert_eq!(clock_to_timestamp(Ok(u128::MAX)), i128::MAX);
    assert_eq!(clock_to_timestamp(Err(u128::MAX)), -i128::MAX);
}

#[test]
fn root_is_the_first_created_node() {
    let mut wv = WorldView::new();
    let n = Node::label("r");
    let id = n.id;
    let stray = node_update(NodeID::rnd(), vec![NodeUpdate::Label("x".to_string())]);
    assert_eq!(wv.add_source(caps(), vec![stray.clone()]), Err(WorldViewError::NoRootNode));
    assert_eq!(wv.add_source(caps(), vec![stray, Transaction::create_node(n)]), Ok(id));
    assert_eq!(wv.root_nodes(), vec![id]);
}
