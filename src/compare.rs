//! Deep comparison and deep copy of the data model, each proved to agree
//! with the values of its arguments.
use vstd::prelude::*;

use crate::ids::{EdgeID, NodeID};
use crate::structs::{
    actions_view, argument_list_view, edge_list_view, edge_view, event_view, events_view,
    node_view, record_view, update_view, updates_view, Argument, BFContainer, Base, DataHash, Edge,
    EdgeAction, EdgeKind, Node, NodeKind, NodeUpdate, NodeUpdateM, Record, RecordCUD, RecordEvent,
    Transaction,
};

verus! {

broadcast use vstd::std_specs::vec::group_vec_axioms;

/// Copies a byte vector.
pub fn copy_bytes(v: &Vec<u8>) -> (r: Vec<u8>)
    ensures
        r@ == v@,
{
    let mut r: Vec<u8> = Vec::new();
    let mut i: usize = 0;
    while i < v.len()
        invariant
            i <= v.len(),
            r@ == v@.subrange(0, i as int),
        decreases v.len() - i,
    {
        r.push(v[i]);
        i = i + 1;
    }
    assert(r@ =~= v@);
    r
}

/// Copies a list of node identifiers.
pub fn copy_ids(v: &Vec<NodeID>) -> (r: Vec<NodeID>)
    ensures
        r@ == v@,
{
    let mut r: Vec<NodeID> = Vec::new();
    let mut i: usize = 0;
    while i < v.len()
        invariant
            i <= v.len(),
            r@ == v@.subrange(0, i as int),
        decreases v.len() - i,
    {
        r.push(v[i]);
        i = i + 1;
    }
    assert(r@ =~= v@);
    r
}

/// Compares two byte vectors.
pub fn eq_bytes(a: &Vec<u8>, b: &Vec<u8>) -> (r: bool)
    ensures
        r == (a@ == b@),
{
    if a.len() != b.len() {
        return false;
    }
    let mut i: usize = 0;
    while i < a.len()
        invariant
            i <= a.len(),
            a.len() == b.len(),
            forall|j: int| 0 <= j < i ==> a@[j] == b@[j],
        decreases a.len() - i,
    {
        if a[i] != b[i] {
            assert(a@[i as int] != b@[i as int]);
            return false;
        }
        i = i + 1;
    }
    assert(a@ =~= b@);
    true
}

/// Compares two lists of node identifiers.
pub fn eq_ids(a: &Vec<NodeID>, b: &Vec<NodeID>) -> (r: bool)
    ensures
        r == (a@ == b@),
{
    if a.len() != b.len() {
        return false;
    }
    let mut i: usize = 0;
    while i < a.len()
        invariant
            i <= a.len(),
            a.len() == b.len(),
            forall|j: int| 0 <= j < i ==> a@[j] == b@[j],
        decreases a.len() - i,
    {
        if a[i] != b[i] {
            assert(a@[i as int] != b@[i as int]);
            return false;
        }
        i = i + 1;
    }
    assert(a@ =~= b@);
    true
}

/// A deep copy of a node kind.
pub fn copy_node_kind(k: &NodeKind) -> (r: NodeKind)
    ensures
        r@ == k@,
{
    match k {
        NodeKind::Label => NodeKind::Label,
        NodeKind::MimeType(s) => NodeKind::MimeType(s.clone()),
        NodeKind::Schema => NodeKind::Schema,
        NodeKind::Render(r) => NodeKind::Render(*r),
        NodeKind::Container(c) => NodeKind::Container(
            match c {
                BFContainer::Formatted => BFContainer::Formatted,
                BFContainer::MimeType(s) => BFContainer::MimeType(s.clone()),
                BFContainer::Schema => BFContainer::Schema,
                BFContainer::Concrete => BFContainer::Concrete,
            },
        ),
    }
}

/// Whether two node kinds are equal.
pub fn eq_node_kind(a: &NodeKind, b: &NodeKind) -> (r: bool)
    ensures
        r == (a@ == b@),
{
    match (a, b) {
        (NodeKind::Label, NodeKind::Label) => true,
        (NodeKind::MimeType(x), NodeKind::MimeType(y)) => x.eq(y),
        (NodeKind::Schema, NodeKind::Schema) => true,
        (NodeKind::Render(x), NodeKind::Render(y)) => *x == *y,
        (NodeKind::Container(x), NodeKind::Container(y)) => match (x, y) {
            (BFContainer::Formatted, BFContainer::Formatted) => true,
            (BFContainer::MimeType(s), BFContainer::MimeType(t)) => s.eq(t),
            (BFContainer::Schema, BFContainer::Schema) => true,
            (BFContainer::Concrete, BFContainer::Concrete) => true,
            _ => false,
        },
        _ => false,
    }
}

/// A deep copy of a node's data.
pub fn copy_data(d: &DataHash) -> (r: DataHash)
    ensures
        r@ == d@,
{
    match d {
        DataHash::Hash(h) => DataHash::Hash(*h),
        DataHash::Bytes(b) => DataHash::Bytes(copy_bytes(b)),
    }
}

/// Whether two data are equal.
pub fn eq_data(a: &DataHash, b: &DataHash) -> (r: bool)
    ensures
        r == (a@ == b@),
{
    match (a, b) {
        (DataHash::Hash(x), DataHash::Hash(y)) => crate::ids::same_bytes(x, y),
        (DataHash::Bytes(x), DataHash::Bytes(y)) => eq_bytes(x, y),
        _ => false,
    }
}

/// A deep copy of an argument.
pub fn copy_argument(a: &Argument) -> (r: Argument)
    ensures
        r@ == a@,
{
    match a {
        Argument::ID(id) => Argument::ID(*id),
        Argument::String(s) => Argument::String(s.clone()),
        Argument::Int(s) => Argument::Int(s.clone()),
        Argument::Float(s) => Argument::Float(s.clone()),
    }
}

/// Whether two arguments are equal.
pub fn eq_argument(a: &Argument, b: &Argument) -> (r: bool)
    ensures
        r == (a@ == b@),
{
    match (a, b) {
        (Argument::ID(x), Argument::ID(y)) => x.eq(y),
        (Argument::String(x), Argument::String(y)) => x.eq(y),
        (Argument::Int(x), Argument::Int(y)) => x.eq(y),
        (Argument::Float(x), Argument::Float(y)) => x.eq(y),
        _ => false,
    }
}

/// A deep copy of a node update.
pub fn copy_update(u: &NodeUpdate) -> (r: NodeUpdate)
    ensures
        r@ == u@,
    decreases u,
{
    match u {
        NodeUpdate::Label(l) => NodeUpdate::Label(l.clone()),
        NodeUpdate::Data(b) => NodeUpdate::Data(copy_bytes(b)),
        NodeUpdate::SetArgument(k, v) => NodeUpdate::SetArgument(k.clone(), copy_argument(v)),
        NodeUpdate::RemoveArgument(k) => NodeUpdate::RemoveArgument(k.clone()),
        NodeUpdate::Migrate(v, us) => {
            let r = copy_updates(us);
            let ghost rv = update_view(NodeUpdate::Migrate(*v, r));
            assert(rv == u@) by {
                if let NodeUpdateM::Migrate(_, s1) = rv {
                    if let NodeUpdateM::Migrate(_, s2) = u@ {
                        assert(s1 =~= updates_view(r));
                        assert(s2 =~= updates_view(*us));
                    }
                }
            }
            NodeUpdate::Migrate(*v, r)
        },
        NodeUpdate::Delete => NodeUpdate::Delete,
    }
}

/// A deep copy of a list of node updates.
pub fn copy_updates(us: &Vec<NodeUpdate>) -> (r: Vec<NodeUpdate>)
    ensures
        updates_view(r) == updates_view(*us),
    decreases us,
{
    let mut r: Vec<NodeUpdate> = Vec::new();
    let mut i: usize = 0;
    while i < us.len()
        invariant
            i <= us.len(),
            r.len() == i,
            forall|j: int| 0 <= j < i ==> update_view(#[trigger] r@[j]) == update_view(us@[j]),
        decreases us.len() - i,
    {
        proof {
            vstd::std_specs::vec::axiom_vec_index_decreases(*us, i as int);
        }
        let c = copy_update(&us[i]);
        r.push(c);
        i = i + 1;
    }
    assert(updates_view(r) =~= updates_view(*us));
    r
}

/// Whether two node updates are equal.
pub fn eq_update(a: &NodeUpdate, b: &NodeUpdate) -> (r: bool)
    ensures
        r == (a@ == b@),
    decreases a,
{
    match (a, b) {
        (NodeUpdate::Label(x), NodeUpdate::Label(y)) => x.eq(y),
        (NodeUpdate::Data(x), NodeUpdate::Data(y)) => eq_bytes(x, y),
        (NodeUpdate::SetArgument(k, v), NodeUpdate::SetArgument(l, w)) => k.eq(l) && eq_argument(v, w),
        (NodeUpdate::RemoveArgument(x), NodeUpdate::RemoveArgument(y)) => x.eq(y),
        (NodeUpdate::Migrate(v, us), NodeUpdate::Migrate(w, ws)) => {
            let ghost s1 = updates_view(*us);
            let ghost s2 = updates_view(*ws);
            assert(a@ == NodeUpdateM::Migrate(*v, s1)) by {
                if let NodeUpdateM::Migrate(_, t) = a@ { assert(t =~= s1); }
            }
            assert(b@ == NodeUpdateM::Migrate(*w, s2)) by {
                if let NodeUpdateM::Migrate(_, t) = b@ { assert(t =~= s2); }
            }
            if *v != *w || us.len() != ws.len() {
                assert(s1.len() == us.len());
                return false;
            }
            let mut i: usize = 0;
            while i < us.len()
                invariant
                    i <= us.len(),
                    us.len() == ws.len(),
                    *a == NodeUpdate::Migrate(*v, *us),
                    *b == NodeUpdate::Migrate(*w, *ws),
                    a@ == NodeUpdateM::Migrate(*v, s1),
                    b@ == NodeUpdateM::Migrate(*w, s2),
                    s1 == updates_view(*us),
                    s2 == updates_view(*ws),
                    forall|j: int| 0 <= j < i ==> s1[j] == s2[j],
                decreases us.len() - i,
            {
                proof {
                    vstd::std_specs::vec::axiom_vec_index_decreases(*us, i as int);
                }
                if !eq_update(&us[i], &ws[i]) {
                    assert(s1[i as int] != s2[i as int]);
                    return false;
                }
                i = i + 1;
            }
            assert(s1 =~= s2);
            true
        },
        (NodeUpdate::Delete, NodeUpdate::Delete) => true,
        _ => false,
    }
}

/// A deep copy of an edge kind.
pub fn copy_edge_kind(k: &EdgeKind) -> (r: EdgeKind)
    ensures
        r@ == k@,
{
    match k {
        EdgeKind::Equality(ids) => EdgeKind::Equality(copy_ids(ids)),
        EdgeKind::Definition { object, label } => EdgeKind::Definition { object: *object, label: *label },
        EdgeKind::Using { client, object } => EdgeKind::Using { client: *client, object: *object },
        EdgeKind::Contains { container, object } => EdgeKind::Contains {
            container: *container,
            object: *object,
        },
        EdgeKind::Reference { dest, blob } => EdgeKind::Reference { dest: *dest, blob: *blob },
    }
}

/// Whether two edge kinds are equal.
pub fn eq_edge_kind(a: &EdgeKind, b: &EdgeKind) -> (r: bool)
    ensures
        r == (a@ == b@),
{
    match (a, b) {
        (EdgeKind::Equality(x), EdgeKind::Equality(y)) => eq_ids(x, y),
        (EdgeKind::Definition { object: o1, label: l1 }, EdgeKind::Definition { object: o2, label: l2 }) => {
            o1.eq(o2) && l1.eq(l2)
        },
        (EdgeKind::Using { client: c1, object: o1 }, EdgeKind::Using { client: c2, object: o2 }) => {
            c1.eq(c2) && o1.eq(o2)
        },
        (
            EdgeKind::Contains { container: c1, object: o1 },
            EdgeKind::Contains { container: c2, object: o2 },
        ) => c1.eq(c2) && o1.eq(o2),
        (EdgeKind::Reference { dest: d1, blob: b1 }, EdgeKind::Reference { dest: d2, blob: b2 }) => {
            d1.eq(d2) && match (b1, b2) {
                (Some(x), Some(y)) => *x == *y,
                (None, None) => true,
                _ => false,
            }
        },
        _ => false,
    }
}

/// A deep copy of an edge action.
pub fn copy_action(a: &EdgeAction) -> (r: EdgeAction)
    ensures
        r@ == a@,
{
    match a {
        EdgeAction::Kind(k) => EdgeAction::Kind(copy_edge_kind(k)),
        EdgeAction::Validity(v) => EdgeAction::Validity(*v),
        EdgeAction::Delete => EdgeAction::Delete,
    }
}

/// Whether two edge actions are equal.
pub fn eq_action(a: &EdgeAction, b: &EdgeAction) -> (r: bool)
    ensures
        r == (a@ == b@),
{
    match (a, b) {
        (EdgeAction::Kind(x), EdgeAction::Kind(y)) => eq_edge_kind(x, y),
        (EdgeAction::Validity(x), EdgeAction::Validity(y)) => *x == *y,
        (EdgeAction::Delete, EdgeAction::Delete) => true,
        _ => false,
    }
}

/// A deep copy of a list of edge actions.
pub fn copy_actions(v: &Vec<EdgeAction>) -> (r: Vec<EdgeAction>)
    ensures
        actions_view(r) == actions_view(*v),
{
    let mut r: Vec<EdgeAction> = Vec::new();
    let mut i: usize = 0;
    while i < v.len()
        invariant
            i <= v.len(),
            r.len() == i,
            forall|j: int| 0 <= j < i ==> (#[trigger] r@[j])@ == v@[j]@,
        decreases v.len() - i,
    {
        r.push(copy_action(&v[i]));
        i = i + 1;
    }
    assert(actions_view(r) =~= actions_view(*v));
    r
}

/// Whether two lists of edge actions are equal.
pub fn eq_actions(a: &Vec<EdgeAction>, b: &Vec<EdgeAction>) -> (r: bool)
    ensures
        r == (actions_view(*a) == actions_view(*b)),
{
    if a.len() != b.len() {
        assert(actions_view(*a).len() != actions_view(*b).len());
        return false;
    }
    let mut i: usize = 0;
    while i < a.len()
        invariant
            i <= a.len(),
            a.len() == b.len(),
            forall|j: int| 0 <= j < i ==> actions_view(*a)[j] == actions_view(*b)[j],
        decreases a.len() - i,
    {
        if !eq_action(&a[i], &b[i]) {
            assert(actions_view(*a)[i as int] != actions_view(*b)[i as int]);
            return false;
        }
        i = i + 1;
    }
    assert(actions_view(*a) =~= actions_view(*b));
    true
}

/// Whether two lists of node updates are equal.
pub fn eq_updates(a: &Vec<NodeUpdate>, b: &Vec<NodeUpdate>) -> (r: bool)
    ensures
        r == (updates_view(*a) == updates_view(*b)),
{
    if a.len() != b.len() {
        assert(updates_view(*a).len() != updates_view(*b).len());
        return false;
    }
    let mut i: usize = 0;
    while i < a.len()
        invariant
            i <= a.len(),
            a.len() == b.len(),
            forall|j: int| 0 <= j < i ==> updates_view(*a)[j] == updates_view(*b)[j],
        decreases a.len() - i,
    {
        if !eq_update(&a[i], &b[i]) {
            assert(updates_view(*a)[i as int] != updates_view(*b)[i as int]);
            return false;
        }
        i = i + 1;
    }
    assert(updates_view(*a) =~= updates_view(*b));
    true
}

/// A deep copy of a node's edge list.
pub fn copy_edge_list(v: &Vec<(EdgeID, EdgeKind)>) -> (r: Vec<(EdgeID, EdgeKind)>)
    ensures
        edge_list_view(r) == edge_list_view(*v),
{
    let mut r: Vec<(EdgeID, EdgeKind)> = Vec::new();
    let mut i: usize = 0;
    while i < v.len()
        invariant
            i <= v.len(),
            r.len() == i,
            forall|j: int| 0 <= j < i ==> (#[trigger] r@[j]).0 == v@[j].0 && r@[j].1@ == v@[j].1@,
        decreases v.len() - i,
    {
        r.push((v[i].0, copy_edge_kind(&v[i].1)));
        i = i + 1;
    }
    assert(edge_list_view(r) =~= edge_list_view(*v));
    r
}

/// Whether two nodes' edge lists are equal.
pub fn eq_edge_list(a: &Vec<(EdgeID, EdgeKind)>, b: &Vec<(EdgeID, EdgeKind)>) -> (r: bool)
    ensures
        r == (edge_list_view(*a) == edge_list_view(*b)),
{
    if a.len() != b.len() {
        assert(edge_list_view(*a).len() != edge_list_view(*b).len());
        return false;
    }
    let mut i: usize = 0;
    while i < a.len()
        invariant
            i <= a.len(),
            a.len() == b.len(),
            forall|j: int| 0 <= j < i ==> edge_list_view(*a)[j] == edge_list_view(*b)[j],
        decreases a.len() - i,
    {
        if !(a[i].0.eq(&b[i].0) && eq_edge_kind(&a[i].1, &b[i].1)) {
            assert(edge_list_view(*a)[i as int] != edge_list_view(*b)[i as int]);
            return false;
        }
        i = i + 1;
    }
    assert(edge_list_view(*a) =~= edge_list_view(*b));
    true
}

/// A deep copy of a node's argument list.
pub fn copy_argument_list(v: &Vec<(String, Argument)>) -> (r: Vec<(String, Argument)>)
    ensures
        argument_list_view(r) == argument_list_view(*v),
{
    let mut r: Vec<(String, Argument)> = Vec::new();
    let mut i: usize = 0;
    while i < v.len()
        invariant
            i <= v.len(),
            r.len() == i,
            forall|j: int| 0 <= j < i ==> (#[trigger] r@[j]).0@ == v@[j].0@ && r@[j].1@ == v@[j].1@,
        decreases v.len() - i,
    {
        r.push((v[i].0.clone(), copy_argument(&v[i].1)));
        i = i + 1;
    }
    assert(argument_list_view(r) =~= argument_list_view(*v));
    r
}

/// Whether two nodes' argument lists are equal.
pub fn eq_argument_list(a: &Vec<(String, Argument)>, b: &Vec<(String, Argument)>) -> (r: bool)
    ensures
        r == (argument_list_view(*a) == argument_list_view(*b)),
{
    if a.len() != b.len() {
        assert(argument_list_view(*a).len() != argument_list_view(*b).len());
        return false;
    }
    let mut i: usize = 0;
    while i < a.len()
        invariant
            i <= a.len(),
            a.len() == b.len(),
            forall|j: int| 0 <= j < i ==> argument_list_view(*a)[j] == argument_list_view(*b)[j],
        decreases a.len() - i,
    {
        if !(a[i].0.eq(&b[i].0) && eq_argument(&a[i].1, &b[i].1)) {
            assert(argument_list_view(*a)[i as int] != argument_list_view(*b)[i as int]);
            return false;
        }
        i = i + 1;
    }
    assert(argument_list_view(*a) =~= argument_list_view(*b));
    true
}

/// A deep copy of a node.
pub fn copy_node(n: &Node) -> (r: Node)
    ensures
        r@ == n@,
    decreases n,
{
    let history = copy_events(&n.history);
    let r = Node {
        id: n.id,
        kind: copy_node_kind(&n.kind),
        label: n.label.clone(),
        op_version: n.op_version,
        data: copy_data(&n.data),
        edges: copy_edge_list(&n.edges),
        arguments: copy_argument_list(&n.arguments),
        history,
    };
    assert(node_view(r).history =~= events_view(r.history));
    assert(node_view(*n).history =~= events_view(n.history));
    r
}

/// Whether two nodes are equal.
pub fn eq_node(a: &Node, b: &Node) -> (r: bool)
    ensures
        r == (a@ == b@),
    decreases a,
{
    assert(node_view(*a).history =~= events_view(a.history));
    assert(node_view(*b).history =~= events_view(b.history));
    a.id.eq(&b.id) && eq_node_kind(&a.kind, &b.kind) && a.label.eq(&b.label) && a.op_version
        == b.op_version && eq_data(&a.data, &b.data) && eq_edge_list(&a.edges, &b.edges)
        && eq_argument_list(&a.arguments, &b.arguments) && eq_events(&a.history, &b.history)
}

/// A deep copy of an edge.
pub fn copy_edge(e: &Edge) -> (r: Edge)
    ensures
        r@ == e@,
    decreases e,
{
    let history = copy_events(&e.history);
    let r = Edge { id: e.id, kind: copy_edge_kind(&e.kind), validity: e.validity, history };
    assert(edge_view(r).history =~= events_view(r.history));
    assert(edge_view(*e).history =~= events_view(e.history));
    r
}

/// Whether two edges are equal.
pub fn eq_edge(a: &Edge, b: &Edge) -> (r: bool)
    ensures
        r == (a@ == b@),
    decreases a,
{
    assert(edge_view(*a).history =~= events_view(a.history));
    assert(edge_view(*b).history =~= events_view(b.history));
    a.id.eq(&b.id) && eq_edge_kind(&a.kind, &b.kind) && a.validity == b.validity && eq_events(
        &a.history,
        &b.history,
    )
}

/// A deep copy of a record.
pub fn copy_record(r: &Record) -> (c: Record)
    ensures
        c@ == r@,
    decreases r,
{
    match r {
        Record::Node(cud) => {
            let base = match &cud.base {
                Base::ID(id) => Base::ID(*id),
                Base::Create(n) => Base::Create(copy_node(n)),
            };
            Record::Node(RecordCUD { base, updates: copy_updates(&cud.updates) })
        },
        Record::Edge(cud) => {
            let base = match &cud.base {
                Base::ID(id) => Base::ID(*id),
                Base::Create(e) => Base::Create(copy_edge(e)),
            };
            Record::Edge(RecordCUD { base, updates: copy_actions(&cud.updates) })
        },
    }
}

/// Whether two records are equal.
pub fn eq_record(a: &Record, b: &Record) -> (r: bool)
    ensures
        r == (a@ == b@),
    decreases a,
{
    match (a, b) {
        (Record::Node(x), Record::Node(y)) => {
            let same_base = match (&x.base, &y.base) {
                (Base::ID(i), Base::ID(j)) => i.eq(j),
                (Base::Create(m), Base::Create(n)) => eq_node(m, n),
                _ => false,
            };
            same_base && eq_updates(&x.updates, &y.updates)
        },
        (Record::Edge(x), Record::Edge(y)) => {
            let same_base = match (&x.base, &y.base) {
                (Base::ID(i), Base::ID(j)) => i.eq(j),
                (Base::Create(m), Base::Create(n)) => eq_edge(m, n),
                _ => false,
            };
            same_base && eq_actions(&x.updates, &y.updates)
        },
        _ => false,
    }
}

/// A deep copy of an event.
pub fn copy_event(e: &RecordEvent) -> (r: RecordEvent)
    ensures
        r@ == e@,
    decreases e,
{
    RecordEvent(e.0, copy_record(&e.1))
}

/// Whether two events are equal.
pub fn eq_event(a: &RecordEvent, b: &RecordEvent) -> (r: bool)
    ensures
        r == (a@ == b@),
    decreases a,
{
    a.0 == b.0 && eq_record(&a.1, &b.1)
}

/// A deep copy of a list of events.
pub fn copy_events(v: &Vec<RecordEvent>) -> (r: Vec<RecordEvent>)
    ensures
        events_view(r) == events_view(*v),
    decreases v,
{
    let mut r: Vec<RecordEvent> = Vec::new();
    let mut i: usize = 0;
    while i < v.len()
        invariant
            i <= v.len(),
            r.len() == i,
            forall|j: int| 0 <= j < i ==> event_view(#[trigger] r@[j]) == event_view(v@[j]),
        decreases v.len() - i,
    {
        proof {
            vstd::std_specs::vec::axiom_vec_index_decreases(*v, i as int);
        }
        r.push(copy_event(&v[i]));
        i = i + 1;
    }
    assert(events_view(r) =~= events_view(*v));
    r
}

/// Whether two lists of events are equal.
pub fn eq_events(a: &Vec<RecordEvent>, b: &Vec<RecordEvent>) -> (r: bool)
    ensures
        r == (events_view(*a) == events_view(*b)),
    decreases a,
{
    if a.len() != b.len() {
        assert(events_view(*a).len() != events_view(*b).len());
        return false;
    }
    let mut i: usize = 0;
    while i < a.len()
        invariant
            i <= a.len(),
            a.len() == b.len(),
            forall|j: int| 0 <= j < i ==> events_view(*a)[j] == events_view(*b)[j],
        decreases a.len() - i,
    {
        proof {
            vstd::std_specs::vec::axiom_vec_index_decreases(*a, i as int);
        }
        if !eq_event(&a[i], &b[i]) {
            assert(events_view(*a)[i as int] != events_view(*b)[i as int]);
            return false;
        }
        i = i + 1;
    }
    assert(events_view(*a) =~= events_view(*b));
    true
}

/// A deep copy of a transaction.
pub fn copy_transaction(t: &Transaction) -> (r: Transaction)
    ensures
        r@ == t@,
{
    let mut records: Vec<Record> = Vec::new();
    let mut i: usize = 0;
    while i < t.records.len()
        invariant
            i <= t.records.len(),
            records.len() == i,
            forall|j: int| 0 <= j < i ==> record_view(#[trigger] records@[j]) == record_view(t.records@[j]),
        decreases t.records.len() - i,
    {
        records.push(copy_record(&t.records[i]));
        i = i + 1;
    }
    let r = Transaction { timestamp: t.timestamp, records };
    assert(r@.records =~= t@.records);
    r
}

/// Whether two transactions are equal.
pub fn eq_transaction(a: &Transaction, b: &Transaction) -> (r: bool)
    ensures
        r == (a@ == b@),
{
    if a.timestamp != b.timestamp || a.records.len() != b.records.len() {
        assert(a@.records.len() == a.records.len());
        return false;
    }
    let mut i: usize = 0;
    while i < a.records.len()
        invariant
            i <= a.records.len(),
            a.records.len() == b.records.len(),
            forall|j: int| 0 <= j < i ==> a@.records[j] == b@.records[j],
        decreases a.records.len() - i,
    {
        if !eq_record(&a.records[i], &b.records[i]) {
            assert(a@.records[i as int] != b@.records[i as int]);
            return false;
        }
        i = i + 1;
    }
    assert(a@.records =~= b@.records);
    true
}

impl Clone for NodeUpdate {
    fn clone(&self) -> (r: NodeUpdate)
        ensures
            r@ == self@,
    {
        copy_update(self)
    }
}

impl PartialEq for NodeUpdate {
    fn eq(&self, o: &NodeUpdate) -> (r: bool) {
        eq_update(self, o)
    }
}

impl vstd::std_specs::cmp::PartialEqSpecImpl for NodeUpdate {
    open spec fn obeys_eq_spec() -> bool {
        true
    }

    open spec fn eq_spec(&self, o: &NodeUpdate) -> bool {
        self@ == o@
    }
}

impl Clone for Node {
    fn clone(&self) -> (r: Node)
        ensures
            r@ == self@,
    {
        copy_node(self)
    }
}

impl PartialEq for Node {
    fn eq(&self, o: &Node) -> (r: bool) {
        eq_node(self, o)
    }
}

impl vstd::std_specs::cmp::PartialEqSpecImpl for Node {
    open spec fn obeys_eq_spec() -> bool {
        true
    }

    open spec fn eq_spec(&self, o: &Node) -> bool {
        self@ == o@
    }
}

impl Clone for Edge {
    fn clone(&self) -> (r: Edge)
        ensures
            r@ == self@,
    {
        copy_edge(self)
    }
}

impl PartialEq for Edge {
    fn eq(&self, o: &Edge) -> (r: bool) {
        eq_edge(self, o)
    }
}

impl vstd::std_specs::cmp::PartialEqSpecImpl for Edge {
    open spec fn obeys_eq_spec() -> bool {
        true
    }

    open spec fn eq_spec(&self, o: &Edge) -> bool {
        self@ == o@
    }
}

impl Clone for Record {
    fn clone(&self) -> (r: Record)
        ensures
            r@ == self@,
    {
        copy_record(self)
    }
}

impl PartialEq for Record {
    fn eq(&self, o: &Record) -> (r: bool) {
        eq_record(self, o)
    }
}

impl vstd::std_specs::cmp::PartialEqSpecImpl for Record {
    open spec fn obeys_eq_spec() -> bool {
        true
    }

    open spec fn eq_spec(&self, o: &Record) -> bool {
        self@ == o@
    }
}

impl Clone for RecordEvent {
    fn clone(&self) -> (r: RecordEvent)
        ensures
            r@ == self@,
    {
        copy_event(self)
    }
}

impl PartialEq for RecordEvent {
    fn eq(&self, o: &RecordEvent) -> (r: bool) {
        eq_event(self, o)
    }
}

impl vstd::std_specs::cmp::PartialEqSpecImpl for RecordEvent {
    open spec fn obeys_eq_spec() -> bool {
        true
    }

    open spec fn eq_spec(&self, o: &RecordEvent) -> bool {
        self@ == o@
    }
}

impl Clone for Transaction {
    fn clone(&self) -> (r: Transaction)
        ensures
            r@ == self@,
    {
        copy_transaction(self)
    }
}

impl PartialEq for Transaction {
    fn eq(&self, o: &Transaction) -> (r: bool) {
        eq_transaction(self, o)
    }
}

impl vstd::std_specs::cmp::PartialEqSpecImpl for Transaction {
    open spec fn obeys_eq_spec() -> bool {
        true
    }

    open spec fn eq_spec(&self, o: &Transaction) -> bool {
        self@ == o@
    }
}

} // verus!
